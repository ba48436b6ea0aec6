use vstd::prelude::*;

verus! {

/// A JSON document as the library reads and builds it.
///
/// Numbers keep their JSON text (for example `1000` or `0.7`).  The entries
/// of an object keep their order; a lookup takes the first entry with the key.
#[derive(Debug)]
pub enum Json {
    Null,
    Bool(bool),
    Number(String),
    Str(String),
    Array(Vec<Json>),
    Object(Vec<(String, Json)>),
}

/// The mathematical model of a JSON document.
pub enum JsonData {
    Null,
    Bool(bool),
    Number(Seq<char>),
    Str(Seq<char>),
    Array(Seq<JsonData>),
    Object(Seq<(Seq<char>, JsonData)>),
}

/// The model of a document.
pub open spec fn json_data(j: Json) -> JsonData
    decreases j,
{
    match j {
        Json::Null => JsonData::Null,
        Json::Bool(b) => JsonData::Bool(b),
        Json::Number(n) => JsonData::Number(n@),
        Json::Str(s) => JsonData::Str(s@),
        Json::Array(items) => JsonData::Array(items_data(items@)),
        Json::Object(entries) => JsonData::Object(entries_data(entries@)),
    }
}

/// The models of a sequence of documents.
pub open spec fn items_data(s: Seq<Json>) -> Seq<JsonData>
    decreases s,
{
    if s.len() == 0 {
        Seq::empty()
    } else {
        items_data(s.drop_last()).push(json_data(s.last()))
    }
}

/// The models of a sequence of object entries.
pub open spec fn entries_data(s: Seq<(String, Json)>) -> Seq<(Seq<char>, JsonData)>
    decreases s,
{
    if s.len() == 0 {
        Seq::empty()
    } else {
        entries_data(s.drop_last()).push((s.last().0@, json_data(s.last().1)))
    }
}

impl View for Json {
    type V = JsonData;

    open spec fn view(&self) -> JsonData {
        json_data(*self)
    }
}

} // verus!

verus! {

/// The length of the models of a sequence of documents, and each of them.
pub proof fn lemma_items_data(s: Seq<Json>)
    ensures
        items_data(s).len() == s.len(),
        forall|i: int| 0 <= i < s.len() ==> #[trigger] items_data(s)[i] == json_data(s[i]),
    decreases s.len(),
{
    if s.len() > 0 {
        lemma_items_data(s.drop_last());
    }
}

/// The length of the models of a sequence of entries, and each of them.
pub proof fn lemma_entries_data(s: Seq<(String, Json)>)
    ensures
        entries_data(s).len() == s.len(),
        forall|i: int|
            0 <= i < s.len() ==> #[trigger] entries_data(s)[i] == (s[i].0@, json_data(s[i].1)),
    decreases s.len(),
{
    if s.len() > 0 {
        lemma_entries_data(s.drop_last());
    }
}

impl Json {
    /// A copy of the document.
    pub fn deep_clone(&self) -> (r: Json)
        ensures
            r@ == self@,
        decreases self,
    {
        match self {
            Json::Null => Json::Null,
            Json::Bool(b) => Json::Bool(*b),
            Json::Number(n) => Json::Number(n.clone()),
            Json::Str(s) => Json::Str(s.clone()),
            Json::Array(items) => {
                proof {
                    assert(decreases_to!(*self => *items));
                }
                let mut out: Vec<Json> = Vec::new();
                let mut i: usize = 0;
                while i < items.len()
                    invariant
                        i <= items.len(),
                        decreases_to!(*self => *items),
                        out@.len() == i,
                        forall|k: int| 0 <= k < i ==> #[trigger] json_data(out@[k]) == json_data(items@[k]),
                    decreases items.len() - i,
                {
                    proof {
                        vstd::std_specs::vec::axiom_vec_index_decreases(*items, i as int);
                        assert(decreases_to!(*self => items@[i as int]));
                    }
                    let c = items[i].deep_clone();
                    out.push(c);
                    i += 1;
                }
                proof {
                    lemma_items_data(out@);
                    lemma_items_data(items@);
                    assert(items_data(out@) =~= items_data(items@));
                }
                Json::Array(out)
            },
            Json::Object(entries) => {
                proof {
                    assert(decreases_to!(*self => *entries));
                }
                let mut out: Vec<(String, Json)> = Vec::new();
                let mut i: usize = 0;
                while i < entries.len()
                    invariant
                        i <= entries.len(),
                        decreases_to!(*self => *entries),
                        out@.len() == i,
                        forall|k: int| 0 <= k < i ==> #[trigger] out@[k].0@ == entries@[k].0@,
                        forall|k: int| 0 <= k < i ==> #[trigger] json_data(out@[k].1) == json_data(entries@[k].1),
                    decreases entries.len() - i,
                {
                    proof {
                        vstd::std_specs::vec::axiom_vec_index_decreases(*entries, i as int);
                        assert(decreases_to!(entries@[i as int] => entries@[i as int].1));
                        assert(decreases_to!(*self => entries@[i as int].1));
                    }
                    let c = entries[i].1.deep_clone();
                    let k = entries[i].0.clone();
                    out.push((k, c));
                    i += 1;
                }
                proof {
                    lemma_entries_data(out@);
                    lemma_entries_data(entries@);
                    assert(entries_data(out@) =~= entries_data(entries@));
                }
                Json::Object(out)
            },
        }
    }
}

} // verus!

verus! {

/// The value of the first entry with key `k`, if any.
pub open spec fn entries_lookup(es: Seq<(Seq<char>, JsonData)>, k: Seq<char>) -> Option<JsonData>
    decreases es.len(),
{
    if es.len() == 0 {
        None
    } else if es[0].0 == k {
        Some(es[0].1)
    } else {
        entries_lookup(es.drop_first(), k)
    }
}

/// `d.get(k)`: the member `k` of an object; nothing for any other document.
pub open spec fn data_get_key(d: JsonData, k: Seq<char>) -> Option<JsonData> {
    match d {
        JsonData::Object(es) => entries_lookup(es, k),
        _ => None,
    }
}

/// `d.get(i)`: the element `i` of an array; nothing for any other document.
pub open spec fn data_get_index(d: JsonData, i: int) -> Option<JsonData> {
    match d {
        JsonData::Array(xs) => if 0 <= i < xs.len() {
            Some(xs[i])
        } else {
            None
        },
        _ => None,
    }
}

/// `d[k]`: the member `k` of an object, `null` where there is none.
pub open spec fn data_at_key(d: JsonData, k: Seq<char>) -> JsonData {
    match data_get_key(d, k) {
        Some(v) => v,
        None => JsonData::Null,
    }
}

/// `d[i]`: the element `i` of an array, `null` where there is none.
pub open spec fn data_at_index(d: JsonData, i: int) -> JsonData {
    match data_get_index(d, i) {
        Some(v) => v,
        None => JsonData::Null,
    }
}

/// The text of a string document.
pub open spec fn data_as_str(d: JsonData) -> Option<Seq<char>> {
    match d {
        JsonData::Str(s) => Some(s),
        _ => None,
    }
}

/// The model of an optional borrowed document.
pub open spec fn ref_data(r: Option<&Json>) -> Option<JsonData> {
    match r {
        Some(j) => Some(j@),
        None => None,
    }
}

/// The model of an optional document.
pub open spec fn opt_data(r: Option<Json>) -> Option<JsonData> {
    match r {
        Some(j) => Some(j@),
        None => None,
    }
}

/// The model of an optional borrowed text.
pub open spec fn ref_text(r: Option<&String>) -> Option<Seq<char>> {
    match r {
        Some(s) => Some(s@),
        None => None,
    }
}

/// The model of an optional text.
pub open spec fn opt_text(r: Option<String>) -> Option<Seq<char>> {
    match r {
        Some(s) => Some(s@),
        None => None,
    }
}

proof fn lemma_lookup_skip(es: Seq<(Seq<char>, JsonData)>, k: Seq<char>, i: int)
    requires
        0 <= i < es.len(),
    ensures
        entries_lookup(es.skip(i), k) == if es[i].0 == k {
            Some(es[i].1)
        } else {
            entries_lookup(es.skip(i + 1), k)
        },
{
    assert(es.skip(i).drop_first() =~= es.skip(i + 1));
}

impl Json {
    /// The member `key` of an object; nothing for any other document.
    pub fn get_key(&self, key: &str) -> (r: Option<&Json>)
        ensures
            ref_data(r) == data_get_key(self@, key@),
    {
        match self {
            Json::Object(entries) => {
                let k = key.to_owned();
                let ghost es = entries_data(entries@);
                proof {
                    lemma_entries_data(entries@);
                    assert(es.skip(0) =~= es);
                }
                let mut i: usize = 0;
                while i < entries.len()
                    invariant
                        i <= entries.len(),
                        es == entries_data(entries@),
                        self@ == JsonData::Object(es),
                        k@ == key@,
                        es.len() == entries@.len(),
                        forall|j: int|
                            0 <= j < entries@.len() ==> #[trigger] es[j] == (
                                entries@[j].0@,
                                json_data(entries@[j].1),
                            ),
                        entries_lookup(es, k@) == entries_lookup(es.skip(i as int), k@),
                    decreases entries.len() - i,
                {
                    proof {
                        lemma_lookup_skip(es, k@, i as int);
                    }
                    if entries[i].0 == k {
                        return Some(&entries[i].1);
                    }
                    i += 1;
                }
                proof {
                    assert(es.skip(i as int) =~= Seq::<(Seq<char>, JsonData)>::empty());
                }
                None
            },
            _ => None,
        }
    }

    /// The element `i` of an array; nothing for any other document.
    pub fn get_index(&self, i: usize) -> (r: Option<&Json>)
        ensures
            ref_data(r) == data_get_index(self@, i as int),
    {
        match self {
            Json::Array(items) => {
                proof {
                    lemma_items_data(items@);
                }
                if i < items.len() {
                    Some(&items[i])
                } else {
                    None
                }
            },
            _ => None,
        }
    }

    /// The text of a string document.
    pub fn as_str(&self) -> (r: Option<&String>)
        ensures
            ref_text(r) == data_as_str(self@),
    {
        match self {
            Json::Str(s) => Some(s),
            _ => None,
        }
    }

    /// The elements of an array.
    pub fn as_array(&self) -> (r: Option<&Vec<Json>>)
        ensures
            match r {
                Some(v) => self@ == JsonData::Array(items_data(v@)),
                None => !(self@ is Array),
            },
    {
        match self {
            Json::Array(items) => Some(items),
            _ => None,
        }
    }

    /// A string document.
    pub fn from_text(s: &str) -> (r: Json)
        ensures
            r@ == JsonData::Str(s@),
    {
        Json::Str(s.to_owned())
    }
}

} // verus!

verus! {

/// A hexadecimal digit as `serde_json` writes it (lower case).
pub open spec fn hex_digit(n: int) -> char {
    if n < 10 {
        (n + 48) as char
    } else {
        (n + 87) as char
    }
}

/// How one character of a string stands in JSON text.
pub open spec fn escape_char(c: char) -> Seq<char> {
    if c == '"' {
        seq!['\\', '"']
    } else if c == '\\' {
        seq!['\\', '\\']
    } else if c == '\u{8}' {
        seq!['\\', 'b']
    } else if c == '\u{c}' {
        seq!['\\', 'f']
    } else if c == '\n' {
        seq!['\\', 'n']
    } else if c == '\r' {
        seq!['\\', 'r']
    } else if c == '\t' {
        seq!['\\', 't']
    } else if (c as u32) < 0x20 {
        seq!['\\', 'u', '0', '0', hex_digit((c as u32) as int / 16), hex_digit((c as u32) as int % 16)]
    } else {
        seq![c]
    }
}

/// The characters of a string with each one escaped.
pub open spec fn escape_text(s: Seq<char>) -> Seq<char>
    decreases s.len(),
{
    if s.len() == 0 {
        Seq::empty()
    } else {
        escape_text(s.drop_last()) + escape_char(s.last())
    }
}

/// The JSON text of a string: quoted and escaped.
pub open spec fn json_quote(s: Seq<char>) -> Seq<char> {
    seq!['"'] + escape_text(s) + seq!['"']
}

/// The compact JSON text of a document.
pub open spec fn json_text(d: JsonData) -> Seq<char>
    decreases d,
{
    match d {
        JsonData::Null => seq!['n', 'u', 'l', 'l'],
        JsonData::Bool(b) => if b {
            seq!['t', 'r', 'u', 'e']
        } else {
            seq!['f', 'a', 'l', 's', 'e']
        },
        JsonData::Number(n) => n,
        JsonData::Str(s) => json_quote(s),
        JsonData::Array(xs) => seq!['['] + items_text(xs) + seq![']'],
        JsonData::Object(es) => seq!['{'] + entries_text(es) + seq!['}'],
    }
}

/// The texts of the elements of an array, separated by commas.
pub open spec fn items_text(xs: Seq<JsonData>) -> Seq<char>
    decreases xs,
{
    if xs.len() == 0 {
        Seq::empty()
    } else if xs.len() == 1 {
        json_text(xs[0])
    } else {
        items_text(xs.drop_last()) + seq![','] + json_text(xs.last())
    }
}

/// The texts of the entries of an object, separated by commas.
pub open spec fn entries_text(es: Seq<(Seq<char>, JsonData)>) -> Seq<char>
    decreases es,
{
    if es.len() == 0 {
        Seq::empty()
    } else if es.len() == 1 {
        json_quote(es[0].0) + seq![':'] + json_text(es[0].1)
    } else {
        entries_text(es.drop_last()) + seq![','] + json_quote(es.last().0) + seq![':'] + json_text(
            es.last().1,
        )
    }
}

/// `serde_json::to_string` on a string.  Of a `&str` it writes the quoted text
/// with `"`, `\` and the control characters below U+0020 escaped (the short
/// escapes `\b \f \n \r \t` where they exist, `\u00xx` with lower-case hex
/// digits otherwise) and every other character as it is; serialising a string
/// cannot fail.
#[verifier::external_body]
fn quote_string(s: &str) -> (r: String)
    ensures
        r@ == json_quote(s@),
{
    serde_json::to_string(s).unwrap_or_default()
}

} // verus!

verus! {

proof fn lemma_items_text_step(xs: Seq<JsonData>, i: int)
    requires
        0 <= i < xs.len(),
    ensures
        items_text(xs.take(i + 1)) == items_text(xs.take(i)) + (if i > 0 {
            seq![',']
        } else {
            Seq::<char>::empty()
        }) + json_text(xs[i]),
{
    let t = xs.take(i + 1);
    assert(t.drop_last() =~= xs.take(i));
    if i == 0 {
        assert(items_text(xs.take(0)) =~= Seq::<char>::empty());
        assert(items_text(t) =~= Seq::<char>::empty() + Seq::<char>::empty() + json_text(xs[0]));
    }
}

proof fn lemma_entries_text_step(es: Seq<(Seq<char>, JsonData)>, i: int)
    requires
        0 <= i < es.len(),
    ensures
        entries_text(es.take(i + 1)) == entries_text(es.take(i)) + (if i > 0 {
            seq![',']
        } else {
            Seq::<char>::empty()
        }) + json_quote(es[i].0) + seq![':'] + json_text(es[i].1),
{
    let t = es.take(i + 1);
    assert(t.drop_last() =~= es.take(i));
    if i == 0 {
        assert(entries_text(es.take(0)) =~= Seq::<char>::empty());
        assert(entries_text(t) =~= Seq::<char>::empty() + Seq::<char>::empty() + json_quote(es[0].0)
            + seq![':'] + json_text(es[0].1));
    }
}

impl Json {
    /// The compact JSON text of the document, as `serde_json::to_string`
    /// writes it: no space, entries in their order, numbers as they stand.
    pub fn to_text(&self) -> (r: String)
        ensures
            r@ == json_text(self@),
        decreases self,
    {
        match self {
            Json::Null => {
                proof {
                    reveal_strlit("null");
                }
                "null".to_owned()
            },
            Json::Bool(b) => {
                proof {
                    reveal_strlit("true");
                    reveal_strlit("false");
                }
                if *b {
                    "true".to_owned()
                } else {
                    "false".to_owned()
                }
            },
            Json::Number(n) => n.clone(),
            Json::Str(s) => quote_string(s.as_str()),
            Json::Array(items) => {
                proof {
                    assert(decreases_to!(*self => *items));
                    lemma_items_data(items@);
                    reveal_strlit("[");
                    reveal_strlit("]");
                    reveal_strlit(",");
                }
                let ghost xs = items_data(items@);
                let mut out = "[".to_owned();
                proof {
                    assert(xs.take(0) =~= Seq::<JsonData>::empty());
                    assert(out@ =~= seq!['['] + items_text(xs.take(0)));
                }
                let mut i: usize = 0;
                while i < items.len()
                    invariant
                        i <= items.len(),
                        decreases_to!(*self => *items),
                        xs == items_data(items@),
                        xs.len() == items@.len(),
                        forall|k: int| 0 <= k < items@.len() ==> #[trigger] xs[k] == json_data(items@[k]),
                        out@ == seq!['['] + items_text(xs.take(i as int)),
                    decreases items.len() - i,
                {
                    proof {
                        vstd::std_specs::vec::axiom_vec_index_decreases(*items, i as int);
                        assert(decreases_to!(*self => items@[i as int]));
                        lemma_items_text_step(xs, i as int);
                        reveal_strlit(",");
                    }
                    if i > 0 {
                        out.append(",");
                    }
                    let t = items[i].to_text();
                    out.append(t.as_str());
                    proof {
                        assert(out@ =~= seq!['['] + items_text(xs.take(i + 1)));
                    }
                    i += 1;
                }
                out.append("]");
                proof {
                    assert(xs.take(i as int) =~= xs);
                    assert(out@ =~= json_text(self@));
                }
                out
            },
            Json::Object(entries) => {
                proof {
                    assert(decreases_to!(*self => *entries));
                    lemma_entries_data(entries@);
                    reveal_strlit("{");
                    reveal_strlit("}");
                    reveal_strlit(",");
                    reveal_strlit(":");
                }
                let ghost es = entries_data(entries@);
                let mut out = "{".to_owned();
                proof {
                    assert(es.take(0) =~= Seq::<(Seq<char>, JsonData)>::empty());
                    assert(out@ =~= seq!['{'] + entries_text(es.take(0)));
                }
                let mut i: usize = 0;
                while i < entries.len()
                    invariant
                        i <= entries.len(),
                        decreases_to!(*self => *entries),
                        es == entries_data(entries@),
                        es.len() == entries@.len(),
                        forall|k: int|
                            0 <= k < entries@.len() ==> #[trigger] es[k] == (
                                entries@[k].0@,
                                json_data(entries@[k].1),
                            ),
                        out@ == seq!['{'] + entries_text(es.take(i as int)),
                    decreases entries.len() - i,
                {
                    proof {
                        vstd::std_specs::vec::axiom_vec_index_decreases(*entries, i as int);
                        assert(decreases_to!(entries@[i as int] => entries@[i as int].1));
                        assert(decreases_to!(*self => entries@[i as int].1));
                        lemma_entries_text_step(es, i as int);
                        reveal_strlit(",");
                        reveal_strlit(":");
                    }
                    if i > 0 {
                        out.append(",");
                    }
                    let k = quote_string(entries[i].0.as_str());
                    out.append(k.as_str());
                    out.append(":");
                    let t = entries[i].1.to_text();
                    out.append(t.as_str());
                    proof {
                        assert(out@ =~= seq!['{'] + entries_text(es.take(i + 1)));
                    }
                    i += 1;
                }
                out.append("}");
                proof {
                    assert(es.take(i as int) =~= es);
                    assert(out@ =~= json_text(self@));
                }
                out
            },
        }
    }
}

} // verus!

verus! {

/// `serde_json::Value`, the document type of `serde_json`; the library holds
/// it only while it turns it into a [`Json`].
#[verifier::external_type_specification]
#[verifier::external_body]
pub struct ExValue(serde_json::Value);

/// What `serde_json::from_str::<serde_json::Value>` makes of a text, as a
/// model: `None` where it reports an error.
pub uninterp spec fn parsed_json(text: Seq<char>) -> Option<JsonData>;

/// Turns a `serde_json::Value` into a [`Json`] node for node: numbers by their
/// `Display` text, object members in the map's order (`serde_json::Map`
/// without `preserve_order` is ordered by key).  Nothing is stated of it: its
/// one caller, [`parse_json`], states what the pair computes.
#[verifier::external_body]
fn json_of_value(v: serde_json::Value) -> Json {
    match v {
        serde_json::Value::Null => Json::Null,
        serde_json::Value::Bool(b) => Json::Bool(b),
        serde_json::Value::Number(n) => Json::Number(n.to_string()),
        serde_json::Value::String(s) => Json::Str(s),
        serde_json::Value::Array(a) => Json::Array(a.into_iter().map(json_of_value).collect()),
        serde_json::Value::Object(m) => Json::Object(
            m.into_iter().map(|(k, x)| (k, json_of_value(x))).collect(),
        ),
    }
}

/// `serde_json::from_str::<serde_json::Value>`: the document that the text
/// holds, `None` where `serde_json` reports an error.  The contract names the
/// result and says no more of it.
#[verifier::external_body]
pub(crate) fn parse_json(text: &str) -> (r: Option<Json>)
    ensures
        opt_data(r) == parsed_json(text@),
{
    serde_json::from_str::<serde_json::Value>(text).ok().map(json_of_value)
}

} // verus!

verus! {

impl Json {
    /// An object of the given entries, in order.
    pub fn object(entries: Vec<(String, Json)>) -> (r: Json)
        ensures
            r@ == JsonData::Object(entries_data(entries@)),
    {
        Json::Object(entries)
    }

    /// An object with one entry.
    pub fn object1(k1: &str, v1: Json) -> (r: Json)
        ensures
            r@ == JsonData::Object(seq![(k1@, v1@)]),
    {
        let entries = vec![(k1.to_owned(), v1)];
        proof {
            lemma_entries_data(entries@);
            assert(entries_data(entries@) =~= seq![(k1@, v1@)]);
        }
        Json::Object(entries)
    }

    /// An object with two entries, in order.
    pub fn object2(k1: &str, v1: Json, k2: &str, v2: Json) -> (r: Json)
        ensures
            r@ == JsonData::Object(seq![(k1@, v1@), (k2@, v2@)]),
    {
        let entries = vec![(k1.to_owned(), v1), (k2.to_owned(), v2)];
        proof {
            lemma_entries_data(entries@);
            assert(entries_data(entries@) =~= seq![(k1@, v1@), (k2@, v2@)]);
        }
        Json::Object(entries)
    }

    /// An object with three entries, in order.
    pub fn object3(k1: &str, v1: Json, k2: &str, v2: Json, k3: &str, v3: Json) -> (r: Json)
        ensures
            r@ == JsonData::Object(seq![(k1@, v1@), (k2@, v2@), (k3@, v3@)]),
    {
        let entries = vec![(k1.to_owned(), v1), (k2.to_owned(), v2), (k3.to_owned(), v3)];
        proof {
            lemma_entries_data(entries@);
            assert(entries_data(entries@) =~= seq![(k1@, v1@), (k2@, v2@), (k3@, v3@)]);
        }
        Json::Object(entries)
    }

    /// An array of the given documents, in order.
    pub fn array(items: Vec<Json>) -> (r: Json)
        ensures
            r@ == JsonData::Array(items_data(items@)),
    {
        Json::Array(items)
    }
}

/// Copies of the documents, in order.
pub fn clone_all(items: &Vec<Json>) -> (r: Vec<Json>)
    ensures
        items_data(r@) == items_data(items@),
{
    let mut out: Vec<Json> = Vec::new();
    let mut i: usize = 0;
    while i < items.len()
        invariant
            i <= items@.len(),
            out@.len() == i,
            forall|k: int| 0 <= k < i ==> #[trigger] json_data(out@[k]) == json_data(items@[k]),
        decreases items.len() - i,
    {
        let c = items[i].deep_clone();
        out.push(c);
        i += 1;
    }
    proof {
        lemma_items_data(out@);
        lemma_items_data(items@);
        assert(items_data(out@) =~= items_data(items@));
    }
    out
}

} // verus!

verus! {

/// No number of the document holds a line feed (the numbers that
/// `serde_json` writes never do).
pub open spec fn numbers_one_line(d: JsonData) -> bool
    decreases d,
{
    match d {
        JsonData::Number(n) => !n.contains('\n'),
        JsonData::Array(xs) => items_one_line(xs),
        JsonData::Object(es) => entries_one_line(es),
        _ => true,
    }
}

/// No number of the documents holds a line feed.
pub open spec fn items_one_line(xs: Seq<JsonData>) -> bool
    decreases xs,
{
    if xs.len() == 0 {
        true
    } else {
        items_one_line(xs.drop_last()) && numbers_one_line(xs.last())
    }
}

/// No number of the entries' values holds a line feed.
pub open spec fn entries_one_line(es: Seq<(Seq<char>, JsonData)>) -> bool
    decreases es,
{
    if es.len() == 0 {
        true
    } else {
        entries_one_line(es.drop_last()) && numbers_one_line(es.last().1)
    }
}

proof fn lemma_concat_no(a: Seq<char>, b: Seq<char>, c: char)
    requires
        !a.contains(c),
        !b.contains(c),
    ensures
        !(a + b).contains(c),
{
    assert forall|i: int| 0 <= i < (a + b).len() implies (a + b)[i] != c by {
        if i < a.len() {
            assert((a + b)[i] == a[i]);
        } else {
            assert((a + b)[i] == b[i - a.len()]);
        }
    }
}

proof fn lemma_escape_no_newline(s: Seq<char>)
    ensures
        !escape_text(s).contains('\n'),
    decreases s.len(),
{
    if s.len() > 0 {
        lemma_escape_no_newline(s.drop_last());
        let c = s.last();
        let e = escape_char(c);
        assert(!e.contains('\n')) by {
            if (c as u32) < 0x20 && c != '\u{8}' && c != '\u{c}' && c != '\n' && c != '\r' && c != '\t' {
                let hi = (c as u32) as int / 16;
                let lo = (c as u32) as int % 16;
                assert(hex_digit(hi) != '\n');
                assert(hex_digit(lo) != '\n');
            }
        }
        lemma_concat_no(escape_text(s.drop_last()), e, '\n');
    }
}

/// The JSON text of a string holds no line feed.
pub proof fn lemma_quote_one_line(s: Seq<char>)
    ensures
        !json_quote(s).contains('\n'),
{
    lemma_escape_no_newline(s);
    lemma_concat_no(seq!['"'], escape_text(s), '\n');
    lemma_concat_no(seq!['"'] + escape_text(s), seq!['"'], '\n');
}

/// The compact text of a document whose numbers have no line feed holds no
/// line feed.
pub proof fn lemma_text_one_line(d: JsonData)
    requires
        numbers_one_line(d),
    ensures
        !json_text(d).contains('\n'),
    decreases d,
{
    match d {
        JsonData::Null => {
            assert(json_text(d)[0] != '\n' && json_text(d)[1] != '\n' && json_text(d)[2] != '\n'
                && json_text(d)[3] != '\n');
        },
        JsonData::Bool(b) => {
            if b {
                assert(json_text(d)[0] != '\n' && json_text(d)[1] != '\n' && json_text(d)[2] != '\n'
                    && json_text(d)[3] != '\n');
            } else {
                assert(json_text(d)[0] != '\n' && json_text(d)[1] != '\n' && json_text(d)[2] != '\n'
                    && json_text(d)[3] != '\n' && json_text(d)[4] != '\n');
            }
        },
        JsonData::Number(n) => {},
        JsonData::Str(s) => lemma_quote_one_line(s),
        JsonData::Array(xs) => {
            lemma_items_one_line(xs);
            lemma_concat_no(seq!['['], items_text(xs), '\n');
            lemma_concat_no(seq!['['] + items_text(xs), seq![']'], '\n');
        },
        JsonData::Object(es) => {
            lemma_entries_one_line(es);
            lemma_concat_no(seq!['{'], entries_text(es), '\n');
            lemma_concat_no(seq!['{'] + entries_text(es), seq!['}'], '\n');
        },
    }
}

proof fn lemma_items_one_line(xs: Seq<JsonData>)
    requires
        items_one_line(xs),
    ensures
        !items_text(xs).contains('\n'),
    decreases xs,
{
    if xs.len() == 1 {
        assert(xs.drop_last().len() == 0);
        assert(xs.last() == xs[0]);
        lemma_text_one_line(xs[0]);
    } else if xs.len() > 1 {
        lemma_items_one_line(xs.drop_last());
        lemma_text_one_line(xs.last());
        lemma_concat_no(items_text(xs.drop_last()), seq![','], '\n');
        lemma_concat_no(items_text(xs.drop_last()) + seq![','], json_text(xs.last()), '\n');
    }
}

proof fn lemma_entries_one_line(es: Seq<(Seq<char>, JsonData)>)
    requires
        entries_one_line(es),
    ensures
        !entries_text(es).contains('\n'),
    decreases es,
{
    if es.len() == 1 {
        assert(es.last() == es[0]);
        lemma_text_one_line(es[0].1);
        lemma_quote_one_line(es[0].0);
        lemma_concat_no(json_quote(es[0].0), seq![':'], '\n');
        lemma_concat_no(json_quote(es[0].0) + seq![':'], json_text(es[0].1), '\n');
    } else if es.len() > 1 {
        let p = es.drop_last();
        let l = es.last();
        lemma_entries_one_line(p);
        lemma_text_one_line(l.1);
        lemma_quote_one_line(l.0);
        lemma_concat_no(entries_text(p), seq![','], '\n');
        lemma_concat_no(entries_text(p) + seq![','], json_quote(l.0), '\n');
        lemma_concat_no(entries_text(p) + seq![','] + json_quote(l.0), seq![':'], '\n');
        lemma_concat_no(entries_text(p) + seq![','] + json_quote(l.0) + seq![':'], json_text(l.1), '\n');
    }
}

} // verus!
