//! JSON values: what a document says, how it is read and changed, and how it
//! passes to and from the `serde_json` crate.
use vstd::prelude::*;
use vstd::string::*;

use crate::text;

verus! {

/// A JSON value as the `serde_json` crate holds it. It is carried opaquely;
/// [`document_of`] names what it says.
#[verifier::external_type_specification]
#[verifier::external_body]
pub struct ExValue(serde_json::Value);

/// A JSON number as the `serde_json` crate holds it: an integer or a float.
#[verifier::external_type_specification]
#[verifier::external_body]
pub struct ExNumber(serde_json::Number);

/// The reason why `serde_json` refused an input.
#[verifier::external_type_specification]
#[verifier::external_body]
pub struct ExJsonError(serde_json::Error);

/// What a JSON value says. The order of an object's fields says nothing.
#[verifier::ext_equal]
pub enum Document {
    Null,
    Bool(bool),
    Number(serde_json::Number),
    Text(Seq<char>),
    Array(Seq<Document>),
    Object(Map<Seq<char>, Document>),
}

impl Document {
    /// The field `key` of an object; of anything else, nothing.
    pub open spec fn get(self, key: Seq<char>) -> Option<Document> {
        match self {
            Document::Object(fields) => if fields.contains_key(key) {
                Some(fields[key])
            } else {
                None
            },
            _ => None,
        }
    }

    /// The field `key`, or null where there is none.
    pub open spec fn at(self, key: Seq<char>) -> Document {
        match self.get(key) {
            Some(d) => d,
            None => Document::Null,
        }
    }

    pub open spec fn as_text(self) -> Option<Seq<char>> {
        match self {
            Document::Text(s) => Some(s),
            _ => None,
        }
    }

    pub open spec fn as_u64(self) -> Option<u64> {
        match self {
            Document::Number(n) => number_as_u64(n),
            _ => None,
        }
    }

    pub open spec fn as_i64(self) -> Option<i64> {
        match self {
            Document::Number(n) => number_as_i64(n),
            _ => None,
        }
    }

    pub open spec fn as_array(self) -> Option<Seq<Document>> {
        match self {
            Document::Array(items) => Some(items),
            _ => None,
        }
    }

    /// The object with `key` set to `value`; anything else as it is.
    pub open spec fn with(self, key: Seq<char>, value: Document) -> Document {
        match self {
            Document::Object(fields) => Document::Object(fields.insert(key, value)),
            _ => self,
        }
    }

    /// The texts of an array of texts; of anything else, nothing.
    pub open spec fn as_texts(self) -> Option<Seq<Seq<char>>> {
        match self {
            Document::Array(items) => if forall|i: int|
                0 <= i < items.len() ==> (#[trigger] items[i]) is Text {
                Some(items.map_values(|d: Document| d->Text_0))
            } else {
                None
            },
            _ => None,
        }
    }
}

/// The unsigned integer that a JSON number is, if it is one
/// (`serde_json::Number::as_u64`).
pub uninterp spec fn number_as_u64(number: serde_json::Number) -> Option<u64>;

/// The signed integer that a JSON number is, if it is one
/// (`serde_json::Number::as_i64`).
pub uninterp spec fn number_as_i64(number: serde_json::Number) -> Option<i64>;

/// The JSON number that an unsigned integer is (`From<u64>` of
/// `serde_json::Number`).
pub uninterp spec fn number_of(n: u64) -> serde_json::Number;

/// What a value of the `serde_json` crate holds.
pub uninterp spec fn document_of(value: serde_json::Value) -> Document;

/// The document that a text spells, if it spells one (`serde_json::from_str`).
pub uninterp spec fn parsed_text(text: Seq<char>) -> Option<Document>;

/// The document that bytes spell, if they spell one (`serde_json::from_slice`).
pub uninterp spec fn parsed_bytes(bytes: Seq<u8>) -> Option<Document>;

/// What is said of a document that is no array of texts
/// (the error of `serde_json::from_value::<Vec<String>>`).
pub uninterp spec fn texts_error(document: Document) -> Seq<char>;

/// The one-line spelling of a document (`Display` of `serde_json::Value`).
pub uninterp spec fn rendered(document: Document) -> Seq<char>;

/// The indented spelling of a document (`serde_json::to_string_pretty`).
pub uninterp spec fn rendered_pretty(document: Document) -> Seq<char>;

/// One JSON value.
#[derive(Debug)]
pub enum Json {
    Null,
    Bool(bool),
    Number(serde_json::Number),
    Text(String),
    Array(Vec<Json>),
    Object(Fields),
}

/// The fields of a JSON object, each name once.
#[derive(Debug)]
pub struct Fields {
    entries: Vec<(String, Json)>,
}

spec fn fields_of(entries: Seq<(String, Json)>) -> Map<Seq<char>, Document>
    decreases entries,
{
    if entries.len() == 0 {
        Map::empty()
    } else {
        fields_of(entries.drop_last()).insert(entries.last().0@, entries.last().1.view())
    }
}

/// What each of some values says.
pub open spec fn documents_of(items: Seq<Json>) -> Seq<Document>
    decreases items,
{
    Seq::new(
        items.len(),
        |i: int|
            if 0 <= i < items.len() {
                items[i].view()
            } else {
                arbitrary()
            },
    )
}

spec fn distinct_keys(entries: Seq<(String, Json)>) -> bool {
    forall|i: int, j: int|
        0 <= i < j < entries.len() ==> (#[trigger] entries[i]).0@ != (#[trigger] entries[j]).0@
}

proof fn lemma_fields(entries: Seq<(String, Json)>)
    requires
        distinct_keys(entries),
    ensures
        fields_of(entries).dom().finite(),
        forall|i: int|
            0 <= i < entries.len() ==> fields_of(entries).contains_key(
                (#[trigger] entries[i]).0@,
            ) && fields_of(entries)[entries[i].0@] == entries[i].1.view(),
        forall|k: Seq<char>|
            #[trigger] fields_of(entries).contains_key(k) ==> exists|i: int|
                0 <= i < entries.len() && (#[trigger] entries[i]).0@ == k,
    decreases entries.len(),
{
    if entries.len() > 0 {
        let rest = entries.drop_last();
        lemma_fields(rest);
        assert forall|i: int| 0 <= i < entries.len() implies fields_of(entries).contains_key(
            (#[trigger] entries[i]).0@,
        ) && fields_of(entries)[entries[i].0@] == entries[i].1.view() by {
            if i < rest.len() {
                assert(rest[i] == entries[i]);
                assert(entries[i].0@ != entries[entries.len() - 1].0@);
            }
        }
        assert forall|k: Seq<char>| #[trigger] fields_of(entries).contains_key(k) implies exists|
            i: int,
        |
            0 <= i < entries.len() && (#[trigger] entries[i]).0@ == k by {
            if k == entries.last().0@ {
                assert(entries[entries.len() - 1].0@ == k);
            } else {
                assert(fields_of(rest).contains_key(k));
                let i = choose|i: int| 0 <= i < rest.len() && (#[trigger] rest[i]).0@ == k;
                assert(entries[i].0@ == k);
            }
        }
    }
}

impl Fields {
    pub closed spec fn view(&self) -> Map<Seq<char>, Document>
        decreases self,
    {
        fields_of(self.entries@)
    }

    #[verifier::type_invariant]
    spec fn distinct(self) -> bool {
        distinct_keys(self.entries@)
    }

    /// No fields.
    pub fn new() -> (out: Self)
        ensures
            out@ == Map::<Seq<char>, Document>::empty(),
    {
        Fields { entries: Vec::new() }
    }

    pub closed spec fn spec_len(&self) -> nat {
        self.entries@.len()
    }

    /// The name of the field in place `i`.
    pub closed spec fn spec_name(&self, i: int) -> Seq<char> {
        self.entries@[i].0@
    }

    /// The number of fields. Each field has one place below it.
    pub fn len(&self) -> (out: usize)
        ensures
            out == self.spec_len(),
            self@.dom().finite(),
            forall|i: int|
                0 <= i < out ==> self@.contains_key(#[trigger] self.spec_name(i)),
            forall|k: Seq<char>|
                #[trigger] self@.contains_key(k) ==> exists|i: int|
                    0 <= i < out && #[trigger] self.spec_name(i) == k,
            forall|i: int, j: int|
                0 <= i < j < out ==> #[trigger] self.spec_name(i) != #[trigger] self.spec_name(j),
    {
        proof {
            use_type_invariant(self);
            lemma_fields(self.entries@);
            assert forall|k: Seq<char>| #[trigger] self@.contains_key(k) implies exists|i: int|
                0 <= i < self.spec_len() && #[trigger] self.spec_name(i) == k by {
                let i = choose|i: int|
                    0 <= i < self.entries@.len() && (#[trigger] self.entries@[i]).0@ == k;
                assert(self.spec_name(i) == k);
            }
        }
        self.entries.len()
    }

    /// The value of the field in place `i`.
    pub fn value_at(&self, i: usize) -> (out: &Json)
        requires
            i < self.spec_len(),
        ensures
            self@.contains_key(self.spec_name(i as int)),
            out@ == self@[self.spec_name(i as int)],
    {
        proof {
            use_type_invariant(self);
            lemma_fields(self.entries@);
        }
        &self.entries[i].1
    }

    /// The name of the field in place `i`.
    pub fn name_at(&self, i: usize) -> (out: &str)
        requires
            i < self.spec_len(),
        ensures
            out@ == self.spec_name(i as int),
    {
        self.entries[i].0.as_str()
    }

    /// The value of the field `key`.
    pub fn get(&self, key: &str) -> (out: Option<&Json>)
        ensures
            out is Some <==> self@.contains_key(key@),
            out matches Some(value) ==> value@ == self@[key@],
    {
        proof {
            use_type_invariant(self);
            lemma_fields(self.entries@);
        }
        let mut i: usize = 0;
        while i < self.entries.len()
            invariant
                distinct_keys(self.entries@),
                i <= self.entries@.len(),
                forall|j: int| 0 <= j < i ==> (#[trigger] self.entries@[j]).0@ != key@,
            decreases self.entries@.len() - i,
        {
            if text::same(self.entries[i].0.as_str(), key) {
                proof {
                    lemma_fields(self.entries@);
                }
                return Some(&self.entries[i].1);
            }
            i += 1;
        }
        None
    }

    /// Sets the field `key`, whether or not it was there.
    pub fn insert(&mut self, key: &str, value: Json)
        ensures
            final(self)@ == old(self)@.insert(key@, value@),
    {
        proof {
            use_type_invariant(&*self);
        }
        let mut entries: Vec<(String, Json)> = Vec::new();
        std::mem::swap(&mut entries, &mut self.entries);
        let ghost before = entries@;
        proof {
            lemma_fields(before);
        }
        let mut i: usize = 0;
        while i < entries.len() && !text::same(entries[i].0.as_str(), key)
            invariant
                entries@ == before,
                i <= entries@.len(),
                forall|j: int| 0 <= j < i ==> (#[trigger] entries@[j]).0@ != key@,
            decreases entries@.len() - i,
        {
            i += 1;
        }
        let ghost wanted = fields_of(before).insert(key@, value@);
        if i < entries.len() {
            entries[i] = (key.to_owned(), value);
            proof {
                lemma_fields(entries@);
                assert(fields_of(entries@) =~= wanted) by {
                    assert forall|k: Seq<char>|
                        fields_of(entries@).contains_key(k) <==> wanted.contains_key(k) by {
                        if fields_of(entries@).contains_key(k) {
                            let j = choose|j: int|
                                0 <= j < entries@.len() && (#[trigger] entries@[j]).0@ == k;
                            assert(before[j].0@ == k);
                        }
                        if wanted.contains_key(k) && k != key@ {
                            let j = choose|j: int|
                                0 <= j < before.len() && (#[trigger] before[j]).0@ == k;
                            assert(entries@[j].0@ == k);
                        }
                        assert(entries@[i as int].0@ == key@);
                    }
                    assert forall|k: Seq<char>| #[trigger]
                        wanted.contains_key(k) implies fields_of(entries@)[k] == wanted[k] by {
                        if k == key@ {
                            assert(entries@[i as int].0@ == key@);
                        } else {
                            let j = choose|j: int|
                                0 <= j < before.len() && (#[trigger] before[j]).0@ == k;
                            assert(entries@[j] == before[j]);
                        }
                    }
                }
            }
        } else {
            entries.push((key.to_owned(), value));
            proof {
                assert(entries@.drop_last() =~= before);
                assert(fields_of(entries@) == wanted);
            }
        }
        self.entries = entries;
    }
}

impl Json {
    pub open spec fn view(&self) -> Document
        decreases self,
    {
        match self {
            Json::Null => Document::Null,
            Json::Bool(b) => Document::Bool(*b),
            Json::Number(n) => Document::Number(*n),
            Json::Text(s) => Document::Text(s@),
            Json::Array(items) => Document::Array(documents_of(items@)),
            Json::Object(fields) => Document::Object(fields.view()),
        }
    }

    /// A text value.
    pub fn text(s: &str) -> (out: Json)
        ensures
            out@ == Document::Text(s@),
    {
        Json::Text(s.to_owned())
    }

    /// A text value, or null.
    pub fn text_or_null(s: &Option<String>) -> (out: Json)
        ensures
            out@ == (match *s {
                Some(t) => Document::Text(t@),
                None => Document::Null,
            }),
    {
        match s {
            Some(t) => Json::Text(t.clone()),
            None => Json::Null,
        }
    }

    /// A whole number.
    pub fn number(n: u64) -> (out: Json)
        ensures
            out@ == Document::Number(number_of(n)),
            out@.as_u64() == Some(n),
            out@.as_i64() == (if n <= i64::MAX {
                Some(n as i64)
            } else {
                None
            }),
    {
        Json::Number(number_from(n))
    }

    /// The field `key` of an object.
    pub fn get(&self, key: &str) -> (out: Option<&Json>)
        ensures
            out is Some <==> self@.get(key@) is Some,
            out matches Some(value) ==> self@.get(key@) == Some(value@),
    {
        match self {
            Json::Object(fields) => fields.get(key),
            _ => None,
        }
    }

    /// The text that the value is.
    pub fn as_str(&self) -> (out: Option<&str>)
        ensures
            out is Some <==> self@ is Text,
            out matches Some(s) ==> self@.as_text() == Some(s@),
    {
        match self {
            Json::Text(s) => Some(s.as_str()),
            _ => None,
        }
    }

    /// The unsigned integer that the value is.
    pub fn as_u64(&self) -> (out: Option<u64>)
        ensures
            out == self@.as_u64(),
    {
        match self {
            Json::Number(n) => n.as_u64(),
            _ => None,
        }
    }

    /// The signed integer that the value is.
    pub fn as_i64(&self) -> (out: Option<i64>)
        ensures
            out == self@.as_i64(),
    {
        match self {
            Json::Number(n) => n.as_i64(),
            _ => None,
        }
    }

    /// The items of an array.
    pub fn as_array(&self) -> (out: Option<&Vec<Json>>)
        ensures
            out is Some <==> self@ is Array,
            out matches Some(items) ==> self@.as_array() == Some(documents_of(items@)),
    {
        match self {
            Json::Array(items) => Some(items),
            _ => None,
        }
    }

    /// The text in the field `key` of an object.
    pub fn text_field(&self, key: &str) -> (out: Option<&str>)
        ensures
            out is Some <==> self@.at(key@) is Text,
            out matches Some(s) ==> self@.at(key@) == Document::Text(s@),
    {
        match self.get(key) {
            Some(value) => value.as_str(),
            None => None,
        }
    }

    /// The texts of an array of texts; of anything else, what it is instead.
    pub fn texts(&self) -> (out: Result<Vec<String>, String>)
        ensures
            match out {
                Ok(texts) => self@.as_texts() == Some(text::views(texts@)),
                Err(e) => self@.as_texts() is None && e@ == texts_error(self@),
            },
    {
        texts_from(self.to_value())
    }

    /// Sets the field `key` of an object; anything else stays as it is.
    pub fn set(&mut self, key: &str, value: Json)
        ensures
            final(self)@ == old(self)@.with(key@, value@),
    {
        match self {
            Json::Object(fields) => fields.insert(key, value),
            _ => {},
        }
    }

    /// A value that says the same.
    pub fn copy(&self) -> (out: Json)
        ensures
            out@ == self@,
        decreases self,
    {
        match self {
            Json::Null => Json::Null,
            Json::Bool(b) => Json::Bool(*b),
            Json::Number(n) => Json::Number(number_copy(n)),
            Json::Text(s) => Json::Text(s.clone()),
            Json::Array(items) => {
                let mut out: Vec<Json> = Vec::new();
                let mut i: usize = 0;
                while i < items.len()
                    invariant
                        i == out@.len(),
                        i <= items@.len(),
                        *self == Json::Array(*items),
                        forall|j: int| 0 <= j < i ==> (#[trigger] out@[j])@ == items@[j]@,
                    decreases items@.len() - i,
                {
                    proof {
                        assert(decreases_to!(*self => (*self)->Array_0));
                        assert(decreases_to!((*self)->Array_0 => items@[i as int]));
                    }
                    out.push(items[i].copy());
                    i += 1;
                }
                proof {
                    assert(documents_of(out@) =~= documents_of(items@));
                }
                Json::Array(out)
            },
            Json::Object(fields) => Json::Object(fields.copy()),
        }
    }

    /// What a `serde_json` value says.
    pub fn from_value(value: &serde_json::Value) -> (out: Json)
        ensures
            out@ == document_of(*value),
        decreases document_of(*value),
    {
        match open_value(value) {
            Layer::Null => Json::Null,
            Layer::Bool(b) => Json::Bool(b),
            Layer::Number(n) => Json::Number(number_copy(n)),
            Layer::Text(s) => Json::Text(s.clone()),
            Layer::Array(items) => {
                let mut out: Vec<Json> = Vec::new();
                let mut i: usize = 0;
                let ghost docs = items@.map_values(|v: serde_json::Value| document_of(v));
                while i < items.len()
                    invariant
                        i == out@.len(),
                        i <= items@.len(),
                        docs == items@.map_values(|v: serde_json::Value| document_of(v)),
                        document_of(*value) == Document::Array(docs),
                        forall|j: int|
                            0 <= j < i ==> (#[trigger] out@[j])@ == document_of(items@[j]),
                    decreases items@.len() - i,
                {
                    proof {
                        assert(docs[i as int] == document_of(items@[i as int]));
                        assert(decreases_to!(document_of(*value) => document_of(*value)->Array_0));
                        assert(decreases_to!(docs => docs[i as int]));
                    }
                    out.push(Json::from_value(&items[i]));
                    i += 1;
                }
                proof {
                    assert(documents_of(out@) =~= docs);
                }
                Json::Array(out)
            },
            Layer::Object(entries) => {
                let mut out: Fields = Fields::new();
                let mut i: usize = 0;
                let ghost whole = borrowed_fields(entries@);
                proof {
                    lemma_borrowed_fields(entries@);
                    assert(entries@.take(0) =~= Seq::empty());
                }
                while i < entries.len()
                    invariant
                        i <= entries@.len(),
                        whole == borrowed_fields(entries@),
                        whole.dom().finite(),
                        document_of(*value) == Document::Object(whole),
                        forall|j: int|
                            0 <= j < entries@.len() ==> whole.contains_key(
                                (#[trigger] entries@[j]).0@,
                            ) && whole[entries@[j].0@] == document_of(*entries@[j].1),
                        out@ == borrowed_fields(entries@.take(i as int)),
                    decreases entries@.len() - i,
                {
                    let (name, part) = entries[i];
                    proof {
                        assert(whole[entries@[i as int].0@] == document_of(*part));
                        assert(decreases_to!(document_of(*value) => document_of(*value)->Object_0));
                        assert(decreases_to!(whole => whole[entries@[i as int].0@]));
                        assert(entries@.take(i + 1).drop_last() =~= entries@.take(i as int));
                    }
                    out.insert(name.as_str(), Json::from_value(part));
                    i += 1;
                }
                proof {
                    assert(entries@.take(i as int) =~= entries@);
                }
                Json::Object(out)
            },
        }
    }

    /// The `serde_json` value that says the same.
    pub fn to_value(&self) -> (out: serde_json::Value)
        ensures
            document_of(out) == self@,
        decreases self,
    {
        match self {
            Json::Null => close_value(Parts::Null),
            Json::Bool(b) => close_value(Parts::Bool(*b)),
            Json::Number(n) => close_value(Parts::Number(number_copy(n))),
            Json::Text(s) => close_value(Parts::Text(s.clone())),
            Json::Array(items) => {
                let mut out: Vec<serde_json::Value> = Vec::new();
                let mut i: usize = 0;
                while i < items.len()
                    invariant
                        i == out@.len(),
                        i <= items@.len(),
                        *self == Json::Array(*items),
                        forall|j: int|
                            0 <= j < i ==> document_of(#[trigger] out@[j]) == items@[j]@,
                    decreases items@.len() - i,
                {
                    proof {
                        assert(decreases_to!(*self => (*self)->Array_0));
                        assert(decreases_to!((*self)->Array_0 => items@[i as int]));
                    }
                    out.push(items[i].to_value());
                    i += 1;
                }
                proof {
                    assert(out@.map_values(|v: serde_json::Value| document_of(v)) =~= documents_of(
                        items@,
                    ));
                }
                close_value(Parts::Array(out))
            },
            Json::Object(fields) => fields.to_value(),
        }
    }

    /// The document that `text` spells.
    pub fn parse(text: &str) -> (out: Option<Json>)
        ensures
            out is Some <==> parsed_text(text@) is Some,
            out matches Some(value) ==> parsed_text(text@) == Some(value@),
    {
        match parse_text(text) {
            Ok(value) => Some(Json::from_value(&value)),
            Err(_) => None,
        }
    }

    /// The document that `bytes` spell.
    pub fn parse_bytes(bytes: &[u8]) -> (out: Option<Json>)
        ensures
            out is Some <==> parsed_bytes(bytes@) is Some,
            out matches Some(value) ==> parsed_bytes(bytes@) == Some(value@),
    {
        match parse_slice(bytes) {
            Ok(value) => Some(Json::from_value(&value)),
            Err(_) => None,
        }
    }

    /// The value on one line.
    pub fn render(&self) -> (out: String)
        ensures
            out@ == rendered(self@),
    {
        render_value(&self.to_value())
    }

    /// The value over several indented lines.
    pub fn render_pretty(&self) -> (out: String)
        ensures
            out@ == rendered_pretty(self@),
    {
        match pretty_value(&self.to_value()) {
            Ok(s) => s,
            Err(_) => vstd::pervasive::unreached(),
        }
    }
}

impl Fields {
    /// Fields that say the same.
    pub fn copy(&self) -> (out: Fields)
        ensures
            out@ == self@,
        decreases self,
    {
        proof {
            use_type_invariant(self);
        }
        let mut entries: Vec<(String, Json)> = Vec::new();
        let mut i: usize = 0;
        proof {
            assert(self.entries@.take(0) =~= Seq::empty());
        }
        while i < self.entries.len()
            invariant
                i == entries@.len(),
                i <= self.entries@.len(),
                distinct_keys(self.entries@),
                forall|j: int|
                    0 <= j < i ==> (#[trigger] entries@[j]).0@ == self.entries@[j].0@,
                fields_of(entries@) == fields_of(self.entries@.take(i as int)),
            decreases self.entries@.len() - i,
        {
            let ghost before = entries@;
            proof {
                assert(decreases_to!(self => self.entries@));
                assert(decreases_to!(self.entries@ => self.entries@[i as int]));
            }
            entries.push((self.entries[i].0.clone(), self.entries[i].1.copy()));
            proof {
                assert(entries@.drop_last() =~= before);
                assert(self.entries@.take(i + 1).drop_last() =~= self.entries@.take(i as int));
            }
            i += 1;
        }
        proof {
            assert(self.entries@.take(i as int) =~= self.entries@);
        }
        Fields { entries }
    }

    fn to_value(&self) -> (out: serde_json::Value)
        ensures
            document_of(out) == Document::Object(self@),
        decreases self,
    {
        let mut entries: Vec<(String, serde_json::Value)> = Vec::new();
        let mut i: usize = 0;
        proof {
            use_type_invariant(self);
            assert(self.entries@.take(0) =~= Seq::empty());
        }
        while i < self.entries.len()
            invariant
                i == entries@.len(),
                i <= self.entries@.len(),
                distinct_keys(self.entries@),
                forall|j: int| 0 <= j < i ==> (#[trigger] entries@[j]).0@ == self.entries@[j].0@,
                owned_fields(entries@) == fields_of(self.entries@.take(i as int)),
            decreases self.entries@.len() - i,
        {
            let ghost before = entries@;
            proof {
                assert(decreases_to!(self => self.entries@));
                assert(decreases_to!(self.entries@ => self.entries@[i as int]));
            }
            entries.push((self.entries[i].0.clone(), self.entries[i].1.to_value()));
            proof {
                assert(entries@.drop_last() =~= before);
                assert(self.entries@.take(i + 1).drop_last() =~= self.entries@.take(i as int));
            }
            i += 1;
        }
        proof {
            assert(self.entries@.take(i as int) =~= self.entries@);
        }
        close_value(Parts::Object(entries))
    }
}

proof fn lemma_borrowed_fields(entries: Seq<(&String, &serde_json::Value)>)
    requires
        forall|i: int, j: int|
            0 <= i < j < entries.len() ==> (#[trigger] entries[i]).0@ != (#[trigger] entries[j]).0@,
    ensures
        borrowed_fields(entries).dom().finite(),
        forall|i: int|
            0 <= i < entries.len() ==> borrowed_fields(entries).contains_key(
                (#[trigger] entries[i]).0@,
            ) && borrowed_fields(entries)[entries[i].0@] == document_of(*entries[i].1),
    decreases entries.len(),
{
    if entries.len() > 0 {
        let rest = entries.drop_last();
        lemma_borrowed_fields(rest);
        assert forall|i: int| 0 <= i < entries.len() implies borrowed_fields(entries).contains_key(
            (#[trigger] entries[i]).0@,
        ) && borrowed_fields(entries)[entries[i].0@] == document_of(*entries[i].1) by {
            if i < rest.len() {
                assert(rest[i] == entries[i]);
                assert(entries[i].0@ != entries[entries.len() - 1].0@);
            }
        }
    }
}

/// `serde_json::Number::as_u64`: the number as an unsigned integer, if it is one.
pub assume_specification[ serde_json::Number::as_u64 ](number: &serde_json::Number) -> (out: Option<
    u64,
>)
    ensures
        out == number_as_u64(*number),
;

/// `serde_json::Number::as_i64`: the number as a signed integer, if it is one.
pub assume_specification[ serde_json::Number::as_i64 ](number: &serde_json::Number) -> (out: Option<
    i64,
>)
    ensures
        out == number_as_i64(*number),
;

/// `From<u64>` of `serde_json::Number`: the integer itself, which reads back as
/// unsigned always and as signed where it fits.
#[verifier::external_body]
fn number_from(n: u64) -> (out: serde_json::Number)
    ensures
        out == number_of(n),
        number_as_u64(out) == Some(n),
        number_as_i64(out) == (if n <= i64::MAX {
            Some(n as i64)
        } else {
            None
        }),
{
    serde_json::Number::from(n)
}

/// `Clone` of `serde_json::Number`: the same number.
#[verifier::external_body]
fn number_copy(number: &serde_json::Number) -> (out: serde_json::Number)
    ensures
        out == *number,
{
    number.clone()
}

/// `serde_json::from_str` into a value. Which texts spell a document, and which
/// document, is left to the crate.
#[verifier::external_body]
fn parse_text(text: &str) -> (out: Result<serde_json::Value, serde_json::Error>)
    ensures
        match out {
            Ok(value) => parsed_text(text@) == Some(document_of(value)),
            Err(_) => parsed_text(text@) is None,
        },
{
    serde_json::from_str(text)
}

/// `serde_json::from_slice` into a value. Which bytes spell a document, and
/// which document, is left to the crate.
#[verifier::external_body]
fn parse_slice(bytes: &[u8]) -> (out: Result<serde_json::Value, serde_json::Error>)
    ensures
        match out {
            Ok(value) => parsed_bytes(bytes@) == Some(document_of(value)),
            Err(_) => parsed_bytes(bytes@) is None,
        },
{
    serde_json::from_slice(bytes)
}

/// `serde_json::from_value` into a list of strings: the texts of an array of
/// texts. Of anything else the error says what it is instead.
#[verifier::external_body]
fn texts_from(value: serde_json::Value) -> (out: Result<Vec<String>, String>)
    ensures
        match out {
            Ok(texts) => document_of(value).as_texts() == Some(text::views(texts@)),
            Err(e) => document_of(value).as_texts() is None && e@ == texts_error(
                document_of(value),
            ),
        },
{
    serde_json::from_value::<Vec<String>>(value).map_err(|e| e.to_string())
}

/// `Display` of `serde_json::Value`: the compact spelling of what it holds.
#[verifier::external_body]
fn render_value(value: &serde_json::Value) -> (out: String)
    ensures
        out@ == rendered(document_of(*value)),
{
    value.to_string()
}

/// `serde_json::to_string_pretty`: the indented spelling of what a value holds.
/// It fails where a type's own way of being written does, or on a map with keys
/// that are no strings; a value has neither.
#[verifier::external_body]
fn pretty_value(value: &serde_json::Value) -> (out: Result<String, serde_json::Error>)
    ensures
        out is Ok,
        out matches Ok(s) ==> s@ == rendered_pretty(document_of(*value)),
{
    serde_json::to_string_pretty(value)
}

/// One layer of a value: its kind and its immediate parts.
enum Layer<'a> {
    Null,
    Bool(bool),
    Number(&'a serde_json::Number),
    Text(&'a String),
    Array(&'a Vec<serde_json::Value>),
    Object(Vec<(&'a String, &'a serde_json::Value)>),
}

spec fn borrowed_fields(entries: Seq<(&String, &serde_json::Value)>) -> Map<Seq<char>, Document>
    decreases entries.len(),
{
    if entries.len() == 0 {
        Map::empty()
    } else {
        borrowed_fields(entries.drop_last()).insert(
            entries.last().0@,
            document_of(*entries.last().1),
        )
    }
}

spec fn layer_document(layer: Layer) -> Document {
    match layer {
        Layer::Null => Document::Null,
        Layer::Bool(b) => Document::Bool(b),
        Layer::Number(n) => Document::Number(*n),
        Layer::Text(s) => Document::Text(s@),
        Layer::Array(items) => Document::Array(
            items@.map_values(|v: serde_json::Value| document_of(v)),
        ),
        Layer::Object(entries) => Document::Object(borrowed_fields(entries@)),
    }
}

/// Matches on a `serde_json::Value`: the layer holds the variant's own parts.
/// An object's map hands out each of its names once.
#[verifier::external_body]
fn open_value(value: &serde_json::Value) -> (layer: Layer<'_>)
    ensures
        layer_document(layer) == document_of(*value),
        layer matches Layer::Object(entries) ==> forall|i: int, j: int|
            0 <= i < j < entries@.len() ==> (#[trigger] entries@[i]).0@ != (
            #[trigger] entries@[j]).0@,
{
    match value {
        serde_json::Value::Null => Layer::Null,
        serde_json::Value::Bool(b) => Layer::Bool(*b),
        serde_json::Value::Number(n) => Layer::Number(n),
        serde_json::Value::String(s) => Layer::Text(s),
        serde_json::Value::Array(items) => Layer::Array(items),
        serde_json::Value::Object(fields) => Layer::Object(fields.iter().collect()),
    }
}

/// The immediate parts out of which a value is made.
enum Parts {
    Null,
    Bool(bool),
    Number(serde_json::Number),
    Text(String),
    Array(Vec<serde_json::Value>),
    Object(Vec<(String, serde_json::Value)>),
}

spec fn owned_fields(entries: Seq<(String, serde_json::Value)>) -> Map<Seq<char>, Document>
    decreases entries.len(),
{
    if entries.len() == 0 {
        Map::empty()
    } else {
        owned_fields(entries.drop_last()).insert(entries.last().0@, document_of(entries.last().1))
    }
}

spec fn parts_document(parts: Parts) -> Document {
    match parts {
        Parts::Null => Document::Null,
        Parts::Bool(b) => Document::Bool(b),
        Parts::Number(n) => Document::Number(n),
        Parts::Text(s) => Document::Text(s@),
        Parts::Array(items) => Document::Array(
            items@.map_values(|v: serde_json::Value| document_of(v)),
        ),
        Parts::Object(entries) => Document::Object(owned_fields(entries@)),
    }
}

/// Makes a `serde_json::Value` of the variant that the parts name. A map
/// collected from pairs, no two of them with one name, holds each of them.
#[verifier::external_body]
fn close_value(parts: Parts) -> (value: serde_json::Value)
    requires
        parts matches Parts::Object(entries) ==> forall|i: int, j: int|
            0 <= i < j < entries@.len() ==> (#[trigger] entries@[i]).0@ != (
            #[trigger] entries@[j]).0@,
    ensures
        document_of(value) == parts_document(parts),
{
    match parts {
        Parts::Null => serde_json::Value::Null,
        Parts::Bool(b) => serde_json::Value::Bool(b),
        Parts::Number(n) => serde_json::Value::Number(n),
        Parts::Text(s) => serde_json::Value::String(s),
        Parts::Array(items) => serde_json::Value::Array(items),
        Parts::Object(entries) => serde_json::Value::Object(entries.into_iter().collect()),
    }
}

/// A field is read of an object that has it; of an object without it, and of
/// anything else, it reads as null. Setting a field changes that field alone.
pub proof fn law_fields(
    fields: Map<Seq<char>, Document>,
    key: Seq<char>,
    other: Seq<char>,
    value: Document,
    document: Document,
)
    ensures
        fields.contains_key(key) ==> Document::Object(fields).get(key) == Some(fields[key])
            && Document::Object(fields).at(key) == fields[key],
        !fields.contains_key(key) ==> Document::Object(fields).get(key) is None
            && Document::Object(fields).at(key) is Null,
        !(document is Object) ==> document.get(key) is None && document.at(key) is Null
            && document.with(key, value) == document,
        document is Object ==> document.with(key, value) is Object && document.with(
            key,
            value,
        ).get(key) == Some(value) && (other != key ==> document.with(key, value).get(other)
            == document.get(other)),
{
}

/// A value reads as a text, a list or a whole number exactly where it is one; as
/// a list of texts where it is a list and all its items are texts.
pub proof fn law_kinds(document: Document, text: Seq<char>, items: Seq<Document>)
    ensures
        document.as_text() is Some <==> document is Text,
        Document::Text(text).as_text() == Some(text),
        document.as_array() is Some <==> document is Array,
        Document::Array(items).as_array() == Some(items),
        document.as_u64() is Some || document.as_i64() is Some ==> document is Number,
        document matches Document::Number(n) ==> document.as_u64() == number_as_u64(n)
            && document.as_i64() == number_as_i64(n),
        document.as_texts() is Some ==> document is Array,
        Document::Array(items).as_texts() is Some <==> forall|i: int|
            0 <= i < items.len() ==> (#[trigger] items[i]) is Text,
        Document::Array(items).as_texts() matches Some(texts) ==> texts.len() == items.len()
            && forall|i: int|
            0 <= i < items.len() ==> (#[trigger] items[i]) == Document::Text(texts[i]),
{
}

/// What a value says is what it holds.
pub proof fn law_values_say_what_they_hold(value: Json)
    ensures
        value is Null <==> value@ is Null,
        value matches Json::Bool(b) ==> value@ == Document::Bool(b),
        value matches Json::Number(n) ==> value@ == Document::Number(n),
        value matches Json::Text(s) ==> value@ == Document::Text(s@),
        value matches Json::Object(fields) ==> value@ == Document::Object(fields@),
        value matches Json::Array(items) ==> (value@ matches Document::Array(documents)
            && documents.len() == items@.len() && forall|i: int|
            0 <= i < items@.len() ==> (#[trigger] documents[i]) == items@[i]@),
{
}

}
