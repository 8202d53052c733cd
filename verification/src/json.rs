//! JSON documents as plain values. Reading and writing the text is `serde_json`'s work.
use vstd::prelude::*;

use crate::strmap::Dup;
use crate::text;

verus! {

/// A JSON value. Numbers other than non-negative integers are kept apart as `Other`.
#[derive(Debug, PartialEq, Eq)]
pub enum Json {
    Null,
    Bool(bool),
    Num(u64),
    Other,
    Str(String),
    Arr(Vec<Json>),
    /// Fields in writing order; of two with one name the later counts.
    Obj(Vec<(String, Json)>),
}

/// What a JSON value says.
pub enum JsonView {
    Null,
    Bool(bool),
    Num(u64),
    Other,
    Str(Seq<char>),
    Arr(Seq<JsonView>),
    Obj(Map<Seq<char>, JsonView>),
}

/// The fields of an object by name, the later of two counting.
pub open spec fn fields(v: Seq<(String, Json)>) -> Map<Seq<char>, JsonView>
    decreases v,
{
    if v.len() == 0 {
        Map::empty()
    } else {
        fields(v.drop_last()).insert(v.last().0@, doc(v.last().1))
    }
}

/// What `j` says.
pub open spec fn doc(j: Json) -> JsonView
    decreases j,
{
    match j {
        Json::Null => JsonView::Null,
        Json::Bool(b) => JsonView::Bool(b),
        Json::Num(n) => JsonView::Num(n),
        Json::Other => JsonView::Other,
        Json::Str(s) => JsonView::Str(s@),
        Json::Arr(v) => JsonView::Arr(items(v@)),
        Json::Obj(v) => JsonView::Obj(fields(v@)),
    }
}

/// What the elements of an array say.
pub open spec fn items(v: Seq<Json>) -> Seq<JsonView>
    decreases v,
{
    if v.len() == 0 {
        Seq::empty()
    } else {
        items(v.drop_last()).push(doc(v.last()))
    }
}

impl View for Json {
    type V = JsonView;

    open spec fn view(&self) -> JsonView {
        doc(*self)
    }
}

/// The elements of an array one by one.
pub proof fn lemma_items(v: Seq<Json>)
    ensures
        items(v).len() == v.len(),
        forall|i: int| 0 <= i < v.len() ==> #[trigger] items(v)[i] == v[i]@,
    decreases v.len(),
{
    if v.len() > 0 {
        lemma_items(v.drop_last());
        assert forall|i: int| 0 <= i < v.len() implies #[trigger] items(v)[i] == v[i]@ by {
            if i < v.len() - 1 {
                assert(v.drop_last()[i] == v[i]);
                assert(items(v.drop_last())[i] == v.drop_last()[i]@);
            }
        }
    }
}

impl JsonView {
    /// The field `k` of an object.
    pub open spec fn field(self, k: Seq<char>) -> Option<JsonView> {
        match self {
            JsonView::Obj(m) => if m.contains_key(k) {
                Some(m[k])
            } else {
                None
            },
            _ => None,
        }
    }

    /// The element `i` of an array.
    pub open spec fn elem(self, i: int) -> Option<JsonView> {
        match self {
            JsonView::Arr(s) => if 0 <= i < s.len() {
                Some(s[i])
            } else {
                None
            },
            _ => None,
        }
    }

    pub open spec fn text(self) -> Option<Seq<char>> {
        match self {
            JsonView::Str(s) => Some(s),
            _ => None,
        }
    }

    pub open spec fn num(self) -> Option<u64> {
        match self {
            JsonView::Num(n) => Some(n),
            _ => None,
        }
    }

    pub open spec fn flag(self) -> Option<bool> {
        match self {
            JsonView::Bool(b) => Some(b),
            _ => None,
        }
    }

    pub open spec fn list(self) -> Option<Seq<JsonView>> {
        match self {
            JsonView::Arr(s) => Some(s),
            _ => None,
        }
    }

    /// The text in the field `k`.
    pub open spec fn text_in(self, k: Seq<char>) -> Option<Seq<char>> {
        match self.field(k) {
            Some(v) => v.text(),
            None => None,
        }
    }

    /// The number in the field `k`.
    pub open spec fn num_in(self, k: Seq<char>) -> Option<u64> {
        match self.field(k) {
            Some(v) => v.num(),
            None => None,
        }
    }

    /// The truth value in the field `k`.
    pub open spec fn flag_in(self, k: Seq<char>) -> Option<bool> {
        match self.field(k) {
            Some(v) => v.flag(),
            None => None,
        }
    }

    /// The array in the field `k`.
    pub open spec fn list_in(self, k: Seq<char>) -> Option<Seq<JsonView>> {
        match self.field(k) {
            Some(v) => v.list(),
            None => None,
        }
    }

    /// The text in the element `i`.
    pub open spec fn text_at(self, i: int) -> Option<Seq<char>> {
        match self.elem(i) {
            Some(v) => v.text(),
            None => None,
        }
    }

    /// The number in the element `i`.
    pub open spec fn num_at(self, i: int) -> Option<u64> {
        match self.elem(i) {
            Some(v) => v.num(),
            None => None,
        }
    }

    /// The truth value at a place of the array.
    pub open spec fn flag_at(self, i: int) -> Option<bool> {
        match self.elem(i) {
            Some(j) => j.flag(),
            None => None,
        }
    }

    /// Nests at most `n` deep and holds no number but non-negative integers.
    pub open spec fn plain(self, n: nat) -> bool
        decreases n,
    {
        match self {
            JsonView::Other => false,
            JsonView::Arr(s) => n > 0 && forall|i: int|
                0 <= i < s.len() ==> (#[trigger] s[i]).plain((n - 1) as nat),
            JsonView::Obj(m) => n > 0 && forall|k: Seq<char>|
                m.contains_key(k) ==> (#[trigger] m[k]).plain((n - 1) as nat),
            _ => true,
        }
    }
}

/// What `serde_json::from_slice` reads in a text, `None` where it reports an error.
pub uninterp spec fn json_read(data: Seq<u8>) -> Option<JsonView>;

/// What `serde_json` writes for a value.
pub uninterp spec fn json_written(v: JsonView) -> Seq<u8>;

#[verifier::external_type_specification]
#[verifier::external_body]
pub struct ExValue(serde_json::Value);

/// `serde_json::from_slice`: reads a JSON text. The result depends on the bytes alone.
#[verifier::external_body]
fn read_value(data: &[u8]) -> (r: Option<Json>)
    ensures
        r is Some <==> json_read(data@) is Some,
        r is Some ==> r->0@ == json_read(data@)->0,
{
    serde_json::from_slice::<serde_json::Value>(data).ok().map(from_value)
}

/// Takes a `serde_json::Value` apart, variant by variant. Part of `read_value`.
#[verifier::external_body]
fn from_value(v: serde_json::Value) -> (r: Json) {
    match v {
        serde_json::Value::Null => Json::Null,
        serde_json::Value::Bool(b) => Json::Bool(b),
        serde_json::Value::Number(n) => n.as_u64().map_or(Json::Other, Json::Num),
        serde_json::Value::String(s) => Json::Str(s),
        serde_json::Value::Array(a) => Json::Arr(a.into_iter().map(from_value).collect()),
        serde_json::Value::Object(o) => {
            Json::Obj(o.into_iter().map(|(k, x)| (k, from_value(x))).collect())
        },
    }
}

/// `serde_json::to_vec` of a value: writes it as JSON text. Reading the text back gives the value:
/// integers, texts, arrays and objects are written in full, and the reader takes nesting that
/// stays well below its limit.
#[verifier::external_body]
fn write_value(v: &Json) -> (r: Vec<u8>)
    requires
        v@.plain(16),
    ensures
        r@ == json_written(v@),
        json_read(r@) == Some(v@),
{
    serde_json::to_vec(&to_value(v)).unwrap_or_default()
}

/// Builds a `serde_json::Value`, variant by variant. Part of `write_value`.
#[verifier::external_body]
fn to_value(v: &Json) -> (r: serde_json::Value) {
    match v {
        Json::Null | Json::Other => serde_json::Value::Null,
        Json::Bool(b) => serde_json::Value::from(*b),
        Json::Num(n) => serde_json::Value::from(*n),
        Json::Str(s) => serde_json::Value::from(s.as_str()),
        Json::Arr(a) => a.iter().map(to_value).collect(),
        Json::Obj(o) => o.iter().map(|(k, x)| (k.clone(), to_value(x))).collect(),
    }
}

impl Json {
    /// Reads a JSON text.
    pub fn read(data: &[u8]) -> (r: Option<Json>)
        ensures
            r is Some <==> json_read(data@) is Some,
            r is Some ==> r->0@ == json_read(data@)->0,
    {
        read_value(data)
    }

    /// Writes the value as JSON text, which reads back as the value.
    pub fn write(&self) -> (r: Vec<u8>)
        requires
            self@.plain(16),
        ensures
            r@ == json_written(self@),
            json_read(r@) == Some(self@),
    {
        write_value(self)
    }

    pub fn get(&self, k: &str) -> (r: Option<&Json>)
        ensures
            r is Some <==> self@.field(k@) is Some,
            r is Some ==> r->0@ == self@.field(k@)->0,
    {
        match self {
            Json::Obj(v) => {
                let mut i: usize = v.len();
                assert(v@.take(i as int) =~= v@);
                while i > 0
                    invariant
                        i <= v@.len(),
                        self@ == JsonView::Obj(fields(v@)),
                        fields(v@).contains_key(k@) == fields(v@.take(i as int)).contains_key(k@),
                        fields(v@).contains_key(k@) ==> fields(v@)[k@] == fields(
                            v@.take(i as int),
                        )[k@],
                    decreases i,
                {
                    proof {
                        assert(v@.take(i as int).drop_last() =~= v@.take(i - 1));
                        assert(v@.take(i as int).last() == v@[i - 1]);
                    }
                    i = i - 1;
                    if text::same(v[i].0.as_str(), k) {
                        return Some(&v[i].1);
                    }
                }
                None
            },
            _ => None,
        }
    }

    pub fn at(&self, i: usize) -> (r: Option<&Json>)
        ensures
            r is Some <==> self@.elem(i as int) is Some,
            r is Some ==> r->0@ == self@.elem(i as int)->0,
    {
        match self {
            Json::Arr(v) => {
                proof {
                    lemma_items(v@);
                }
                if i < v.len() {
                    Some(&v[i])
                } else {
                    None
                }
            },
            _ => None,
        }
    }

    pub fn as_str(&self) -> (r: Option<&str>)
        ensures
            r is Some <==> self@.text() is Some,
            r is Some ==> r->0@ == self@.text()->0,
    {
        match self {
            Json::Str(s) => Some(s.as_str()),
            _ => None,
        }
    }

    pub fn as_u64(&self) -> (r: Option<u64>)
        ensures
            r == self@.num(),
    {
        match self {
            Json::Num(n) => Some(*n),
            _ => None,
        }
    }

    pub fn as_bool(&self) -> (r: Option<bool>)
        ensures
            r == self@.flag(),
    {
        match self {
            Json::Bool(b) => Some(*b),
            _ => None,
        }
    }

    pub fn is_null(&self) -> (r: bool)
        ensures
            r == (self@ is Null),
    {
        match self {
            Json::Null => true,
            _ => false,
        }
    }

    pub fn as_array(&self) -> (r: Option<&Vec<Json>>)
        ensures
            r is Some <==> self@.list() is Some,
            r is Some ==> self@.list()->0 == items(r->0@),
    {
        match self {
            Json::Arr(v) => Some(v),
            _ => None,
        }
    }

    /// The text in the field `k`.
    pub fn text_in(&self, k: &str) -> (r: Option<String>)
        ensures
            r is Some <==> self@.text_in(k@) is Some,
            r is Some ==> r->0@ == self@.text_in(k@)->0,
    {
        match self.get(k) {
            Some(v) => match v.as_str() {
                Some(s) => Some(s.to_owned()),
                None => None,
            },
            None => None,
        }
    }

    /// The number in the field `k`.
    pub fn num_in(&self, k: &str) -> (r: Option<u64>)
        ensures
            r == self@.num_in(k@),
    {
        match self.get(k) {
            Some(v) => v.as_u64(),
            None => None,
        }
    }

    /// The truth value in the field `k`.
    pub fn flag_in(&self, k: &str) -> (r: Option<bool>)
        ensures
            r == self@.flag_in(k@),
    {
        match self.get(k) {
            Some(v) => v.as_bool(),
            None => None,
        }
    }

    /// The array in the field `k`.
    pub fn list_in(&self, k: &str) -> (r: Option<&Vec<Json>>)
        ensures
            r is Some <==> self@.list_in(k@) is Some,
            r is Some ==> self@.list_in(k@)->0 == items(r->0@),
    {
        match self.get(k) {
            Some(v) => v.as_array(),
            None => None,
        }
    }

    /// The text in the element `i`.
    pub fn text_at(&self, i: usize) -> (r: Option<String>)
        ensures
            r is Some <==> self@.text_at(i as int) is Some,
            r is Some ==> r->0@ == self@.text_at(i as int)->0,
    {
        match self.at(i) {
            Some(v) => match v.as_str() {
                Some(s) => Some(s.to_owned()),
                None => None,
            },
            None => None,
        }
    }

    /// The number in the element `i`.
    pub fn num_at(&self, i: usize) -> (r: Option<u64>)
        ensures
            r == self@.num_at(i as int),
    {
        match self.at(i) {
            Some(v) => v.as_u64(),
            None => None,
        }
    }

    /// A text value.
    pub fn flag_at(&self, i: usize) -> (r: Option<bool>)
        ensures
            r == self@.flag_at(i as int),
    {
        match self.at(i) {
            Some(j) => j.as_bool(),
            None => None,
        }
    }

    pub fn str_of(s: &str) -> (r: Json)
        ensures
            r@ == JsonView::Str(s@),
    {
        Json::Str(s.to_owned())
    }

    /// Whether the value nests at most `n` deep and holds no number but non-negative integers.
    pub fn is_plain(&self, n: u64) -> (r: bool)
        ensures
            r == self@.plain(n as nat),
        decreases n,
    {
        match self {
            Json::Other => false,
            Json::Arr(v) => {
                if n == 0 {
                    return false;
                }
                proof {
                    lemma_items(v@);
                }
                let mut i: usize = 0;
                while i < v.len()
                    invariant
                        i <= v@.len(),
                        n > 0,
                        self@ == JsonView::Arr(items(v@)),
                        items(v@).len() == v@.len(),
                        forall|j: int| 0 <= j < v@.len() ==> #[trigger] items(v@)[j] == v@[j]@,
                        forall|j: int|
                            0 <= j < i ==> (#[trigger] items(v@)[j]).plain((n - 1) as nat),
                    decreases v@.len() - i,
                {
                    assert(items(v@)[i as int] == v@[i as int]@);
                    if !v[i].is_plain(n - 1) {
                        proof {
                            if self@.plain(n as nat) {
                                lemma_plain_element(items(v@), i as int, n as nat);
                            }
                        }
                        return false;
                    }
                    i += 1;
                }
                true
            },
            Json::Obj(v) => {
                if n == 0 {
                    return false;
                }
                let ghost m = fields(v@);
                let mut i: usize = 0;
                while i < v.len()
                    invariant
                        i <= v@.len(),
                        n > 0,
                        m == fields(v@),
                        self@ == JsonView::Obj(m),
                        forall|j: int|
                            0 <= j < i ==> m[(#[trigger] v@[j]).0@].plain((n - 1) as nat),
                    decreases v@.len() - i,
                {
                    proof {
                        lemma_fields_keys(v@);
                        assert(m.contains_key(v@[i as int].0@));
                    }
                    match self.get(v[i].0.as_str()) {
                        Some(x) => {
                            if !x.is_plain(n - 1) {
                                return false;
                            }
                        },
                        None => {},
                    }
                    i += 1;
                }
                proof {
                    lemma_fields_keys(v@);
                    assert forall|k: Seq<char>| m.contains_key(k) implies (#[trigger] m[k]).plain(
                        (n - 1) as nat,
                    ) by {
                        let j = choose|j: int| 0 <= j < v@.len() && (#[trigger] v@[j]).0@ == k;
                        assert(m[v@[j].0@].plain((n - 1) as nat));
                    }
                }
                true
            },
            _ => true,
        }
    }
}

impl Dup for Json {
    fn dup(&self) -> (r: Self)
        decreases self,
    {
        match self {
            Json::Null => Json::Null,
            Json::Bool(b) => Json::Bool(*b),
            Json::Num(n) => Json::Num(*n),
            Json::Other => Json::Other,
            Json::Str(s) => Json::Str(s.clone()),
            Json::Arr(v) => {
                let mut out: Vec<Json> = Vec::new();
                let mut i: usize = 0;
                assert(v@.take(0) =~= Seq::<Json>::empty());
                while i < v.len()
                    invariant
                        i <= v@.len(),
                        *self == Json::Arr(*v),
                        items(out@) == items(v@.take(i as int)),
                    decreases v@.len() - i,
                {
                    assert(decreases_to!(*self => self->Arr_0));
                    assert(decreases_to!(v => v@));
                    assert(decreases_to!(v@ => v@[i as int]));
                    let one = v[i].dup();
                    proof {
                        lemma_items_push(out@, one);
                        assert(v@.take(i + 1).drop_last() =~= v@.take(i as int));
                    }
                    out.push(one);
                    i += 1;
                }
                assert(v@.take(i as int) =~= v@);
                Json::Arr(out)
            },
            Json::Obj(v) => {
                let mut out: Vec<(String, Json)> = Vec::new();
                let mut i: usize = 0;
                assert(v@.take(0) =~= Seq::<(String, Json)>::empty());
                while i < v.len()
                    invariant
                        i <= v@.len(),
                        *self == Json::Obj(*v),
                        fields(out@) == fields(v@.take(i as int)),
                    decreases v@.len() - i,
                {
                    assert(decreases_to!(*self => self->Obj_0));
                    assert(decreases_to!(v => v@));
                    assert(decreases_to!(v@ => v@[i as int]));
                    assert(decreases_to!(v@[i as int] => v@[i as int].1));
                    let one = (v[i].0.clone(), v[i].1.dup());
                    proof {
                        lemma_fields_push(out@, one);
                        assert(v@.take(i + 1).drop_last() =~= v@.take(i as int));
                    }
                    out.push(one);
                    i += 1;
                }
                assert(v@.take(i as int) =~= v@);
                Json::Obj(out)
            },
        }
    }
}

/// The elements of a plain array nest one level less.
proof fn lemma_plain_element(s: Seq<JsonView>, i: int, n: nat)
    requires
        0 <= i < s.len(),
        JsonView::Arr(s).plain(n),
    ensures
        n > 0,
        s[i].plain((n - 1) as nat),
{
    reveal_with_fuel(JsonView::plain, 2);
    let all = JsonView::Arr(s)->Arr_0;
    assert(all[i].plain((n - 1) as nat));
}

/// An object has the fields that are written in it, and no others.
proof fn lemma_fields_keys(v: Seq<(String, Json)>)
    ensures
        forall|j: int| 0 <= j < v.len() ==> fields(v).contains_key((#[trigger] v[j]).0@),
        forall|k: Seq<char>| #[trigger]
            fields(v).contains_key(k) ==> exists|j: int|
                0 <= j < v.len() && (#[trigger] v[j]).0@ == k,
    decreases v.len(),
{
    if v.len() > 0 {
        let rest = v.drop_last();
        lemma_fields_keys(rest);
        assert forall|j: int| 0 <= j < v.len() implies fields(v).contains_key(
            (#[trigger] v[j]).0@,
        ) by {
            if j < rest.len() {
                assert(fields(rest).contains_key(rest[j].0@));
            }
        }
        assert forall|k: Seq<char>| #[trigger] fields(v).contains_key(k) implies exists|j: int|
            0 <= j < v.len() && (#[trigger] v[j]).0@ == k by {
            if k == v.last().0@ {
                assert(v[v.len() - 1].0@ == k);
            } else {
                assert(fields(rest).contains_key(k));
                let j = choose|j: int| 0 <= j < rest.len() && (#[trigger] rest[j]).0@ == k;
                assert(v[j].0@ == k);
            }
        }
    }
}

/// The elements of an array after one more.
pub proof fn lemma_items_push(v: Seq<Json>, j: Json)
    ensures
        items(v.push(j)) == items(v).push(j@),
{
    assert(v.push(j).drop_last() =~= v);
}

/// The fields of an object after one more.
pub proof fn lemma_fields_push(v: Seq<(String, Json)>, e: (String, Json))
    ensures
        fields(v.push(e)) == fields(v).insert(e.0@, e.1@),
{
    assert(v.push(e).drop_last() =~= v);
}

/// An object under construction.
pub struct Fields {
    list: Vec<(String, Json)>,
}

impl View for Fields {
    type V = Map<Seq<char>, JsonView>;

    closed spec fn view(&self) -> Map<Seq<char>, JsonView> {
        fields(self.list@)
    }
}

impl Fields {
    pub fn new() -> (r: Self)
        ensures
            r@ == Map::<Seq<char>, JsonView>::empty(),
    {
        Fields { list: Vec::new() }
    }

    /// With one more field.
    pub fn with(self, k: &str, v: Json) -> (r: Self)
        ensures
            r@ == self@.insert(k@, v@),
    {
        let mut list = self.list;
        let ghost was = list@;
        list.push((k.to_owned(), v));
        proof {
            lemma_fields_push(was, list@.last());
        }
        Fields { list }
    }

    /// The finished object.
    pub fn done(self) -> (r: Json)
        ensures
            r@ == JsonView::Obj(self@),
    {
        Json::Obj(self.list)
    }
}

/// An array under construction.
pub struct Items {
    list: Vec<Json>,
}

impl View for Items {
    type V = Seq<JsonView>;

    closed spec fn view(&self) -> Seq<JsonView> {
        items(self.list@)
    }
}

impl Items {
    pub fn new() -> (r: Self)
        ensures
            r@ == Seq::<JsonView>::empty(),
    {
        Items { list: Vec::new() }
    }

    pub fn push(&mut self, v: Json)
        ensures
            final(self)@ == old(self)@.push(v@),
    {
        proof {
            lemma_items_push(self.list@, v);
        }
        self.list.push(v);
    }

    /// With one more element.
    pub fn with(self, v: Json) -> (r: Self)
        ensures
            r@ == self@.push(v@),
    {
        let mut out = self;
        out.push(v);
        out
    }

    /// The finished array.
    pub fn done(self) -> (r: Json)
        ensures
            r@ == JsonView::Arr(self@),
    {
        Json::Arr(self.list)
    }
}

} // verus!
