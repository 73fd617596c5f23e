//! JSON documents as far as the library reads them: the members of an object at the top, each a
//! text, a list of texts, an unsigned number, null or something else.

use serde_json::Value::{self, Array, Bool, Null, Number, Object};
use vstd::prelude::*;
use crate::lists::{first_index, lemma_first_index, lemma_first_index_is, views};
use crate::text::{opt_text, same};

verus! {

/// The value of a member of a JSON object. Of a list, an item that is no text is `None`; so is
/// a number that is no unsigned 64-bit integer.
#[derive(Debug)]
pub enum JsonField {
    Null,
    Text(String),
    List(Vec<Option<String>>),
    Number(Option<u64>),
    Other,
}

/// What a [`JsonField`] holds.
pub enum JsonFieldView {
    Null,
    Text(Seq<char>),
    List(Seq<Option<Seq<char>>>),
    Number(Option<u64>),
    Other,
}

impl View for JsonField {
    type V = JsonFieldView;

    open spec fn view(&self) -> JsonFieldView {
        match *self {
            JsonField::Null => JsonFieldView::Null,
            JsonField::Text(text) => JsonFieldView::Text(text@),
            JsonField::List(items) => JsonFieldView::List(opt_texts(items@)),
            JsonField::Number(n) => JsonFieldView::Number(n),
            JsonField::Other => JsonFieldView::Other,
        }
    }
}

/// A list of optional strings taken as characters.
pub open spec fn opt_texts(items: Seq<Option<String>>) -> Seq<Option<Seq<char>>> {
    Seq::new(items.len(), |i: int| opt_text(items[i]))
}

/// A member of a JSON object.
#[derive(Debug)]
pub struct JsonMember {
    pub name: String,
    pub value: JsonField,
}

/// What a [`JsonMember`] holds.
pub struct JsonMemberView {
    pub name: Seq<char>,
    pub value: JsonFieldView,
}

impl View for JsonMember {
    type V = JsonMemberView;

    open spec fn view(&self) -> JsonMemberView {
        JsonMemberView { name: self.name@, value: self.value@ }
    }
}

/// A JSON document: the members of an object, the items of a list, or something else.
#[derive(Debug)]
pub enum JsonDocument {
    Object(Vec<JsonMember>),
    List(Vec<JsonField>),
    Other,
}

/// What a [`JsonDocument`] holds.
pub enum DocumentView {
    Object(Seq<JsonMemberView>),
    List(Seq<JsonFieldView>),
    Other,
}

impl View for JsonDocument {
    type V = DocumentView;

    open spec fn view(&self) -> DocumentView {
        match *self {
            JsonDocument::Object(members) => DocumentView::Object(views(members@)),
            JsonDocument::List(items) => DocumentView::List(views(items@)),
            JsonDocument::Other => DocumentView::Other,
        }
    }
}

/// What `serde_json::from_slice` makes of some bytes: a document, or the text of its error.
pub uninterp spec fn parsed_json(bytes: Seq<u8>) -> Result<DocumentView, Seq<char>>;

/// What [`parse_json`] returned, as plain values.
pub open spec fn json_result(result: Result<JsonDocument, String>) -> Result<
    DocumentView,
    Seq<char>,
> {
    match result {
        Ok(document) => Ok(document@),
        Err(message) => Err(message@),
    }
}

/// `serde_json::from_slice` to a `serde_json::Value`, taken apart. The contract claims only that the
/// result is a function of the bytes.
#[verifier::external_body]
pub(crate) fn parse_json(bytes: &[u8]) -> (res: Result<JsonDocument, String>)
    ensures
        json_result(res) == parsed_json(bytes@),
{
    let field = |value| match value {
        Null => JsonField::Null,
        Value::String(text) => JsonField::Text(text),
        Array(items) => JsonField::List(items.iter().map(|item| item.as_str().map(str::to_owned)).collect()),
        Number(number) => JsonField::Number(number.as_u64()),
        Bool(_) | Object(_) => JsonField::Other,
    };
    Ok(match serde_json::from_slice(bytes).map_err(|err| err.to_string())? {
        Object(map) => JsonDocument::Object(map.into_iter().map(|(name, value)| JsonMember { name, value: field(value) }).collect()),
        Array(items) => JsonDocument::List(items.into_iter().map(field).collect()),
        _ => JsonDocument::Other,
    })
}

/// Tells the members with a name.
pub open spec fn is_named(name: Seq<char>) -> spec_fn(JsonMemberView) -> bool {
    |member: JsonMemberView| member.name == name
}

/// The value of the member with a name, if there is one.
pub open spec fn member_value(document: DocumentView, name: Seq<char>) -> Option<JsonFieldView> {
    match document {
        DocumentView::Object(list) => match first_index(list, is_named(name)) {
            Some(i) => Some(list[i].value),
            None => None,
        },
        _ => None,
    }
}

/// The value of the member with a name, if there is one.
pub(crate) fn find_member<'a>(document: &'a JsonDocument, name: &str) -> (res: Option<
    &'a JsonField,
>)
    ensures
        match res {
            Some(value) => member_value(document@, name@) == Some(value@),
            None => member_value(document@, name@) is None,
        },
{
    let list = match document {
        JsonDocument::Object(list) => list,
        _ => {
            return None;
        },
    };
    let ghost all = views(list@);
    let mut i: usize = 0;
    while i < list.len()
        invariant
            i <= list.len(),
            all == views(list@),
            document@ == DocumentView::Object(all),
            forall|j: int| 0 <= j < i ==> (#[trigger] all[j]).name != name@,
        decreases list.len() - i,
    {
        assert(all[i as int] == list@[i as int]@);
        if same(&list[i].name, name) {
            proof {
                lemma_first_index_is(all, is_named(name@), i as int);
            }
            return Some(&list[i].value);
        }
        i += 1;
    }
    proof {
        lemma_first_index(all, is_named(name@));
    }
    None
}

/// How far a scan of a JSON text has come: the colons outside its strings, whether it is inside a
/// string, and whether the next byte of that string is escaped.
pub struct JsonScan {
    pub colons: nat,
    pub in_string: bool,
    pub escaped: bool,
}

/// The scan of the first `n` bytes.
pub open spec fn json_scan(bytes: Seq<u8>, n: nat) -> JsonScan
    decreases n,
{
    if n == 0 {
        JsonScan { colons: 0, in_string: false, escaped: false }
    } else {
        let before = json_scan(bytes, (n - 1) as nat);
        let byte = bytes[n - 1];
        if before.in_string {
            if before.escaped {
                JsonScan { escaped: false, ..before }
            } else if byte == 0x5c {
                JsonScan { escaped: true, ..before }
            } else if byte == 0x22 {
                JsonScan { in_string: false, ..before }
            } else {
                before
            }
        } else if byte == 0x22 {
            JsonScan { in_string: true, ..before }
        } else if byte == 0x3a {
            JsonScan { colons: before.colons + 1, ..before }
        } else {
            before
        }
    }
}

/// The colons of a JSON text outside its strings. In an object whose values are all texts or null
/// there is one for each member, repeated ones included.
pub open spec fn json_colons(bytes: Seq<u8>) -> nat {
    json_scan(bytes, bytes.len()).colons
}

/// Counts the colons of a JSON text outside its strings.
pub(crate) fn count_colons(bytes: &[u8]) -> (res: usize)
    ensures
        res == json_colons(bytes@),
{
    let mut colons: usize = 0;
    let mut in_string = false;
    let mut escaped = false;
    let mut i: usize = 0;
    while i < bytes.len()
        invariant
            i <= bytes.len(),
            colons <= i,
            json_scan(bytes@, i as nat) == (JsonScan { colons: colons as nat, in_string, escaped }),
        decreases bytes.len() - i,
    {
        let byte = bytes[i];
        if in_string {
            if escaped {
                escaped = false;
            } else if byte == 0x5c {
                escaped = true;
            } else if byte == 0x22 {
                in_string = false;
            }
        } else if byte == 0x22 {
            in_string = true;
        } else if byte == 0x3a {
            colons += 1;
        }
        i += 1;
    }
    colons
}

} // verus!
