//! JSON values as the library sees them, their mathematical model, and the
//! operations the rest of the crate performs on them.
//!
//! An object keeps its members sorted by key, with no key twice: the order in
//! which a JSON map is walked and printed.
use vstd::prelude::*;
use crate::text::{chars_eq, chars_of, extend_chars, seq_lt, seq_lt_exec, string_from};

verus! {

/// A JSON value. A number is held as its decimal text.
pub enum Json {
    Null,
    Bool(bool),
    Number(String),
    Str(String),
    Array(Vec<Json>),
    Object(Vec<(String, Json)>),
}

/// The mathematical value of a JSON document. An object is its keys and,
/// position by position, their values.
pub enum JsonV {
    Null,
    Bool(bool),
    Number(Seq<char>),
    Str(Seq<char>),
    Array(Seq<JsonV>),
    Object(Seq<Seq<char>>, Seq<JsonV>),
}

impl View for Json {
    type V = JsonV;

    open spec fn view(&self) -> JsonV
        decreases self,
    {
        match self {
            Json::Null => JsonV::Null,
            Json::Bool(b) => JsonV::Bool(*b),
            Json::Number(n) => JsonV::Number(n@),
            Json::Str(s) => JsonV::Str(s@),
            Json::Array(items) => JsonV::Array(
                Seq::new(
                    items@.len(),
                    |i: int|
                        if 0 <= i < items@.len() {
                            items@[i].view()
                        } else {
                            JsonV::Null
                        },
                ),
            ),
            Json::Object(entries) => JsonV::Object(
                Seq::new(entries@.len(), |i: int| entries@[i].0@),
                Seq::new(
                    entries@.len(),
                    |i: int|
                        if 0 <= i < entries@.len() {
                            entries@[i].1.view()
                        } else {
                            JsonV::Null
                        },
                ),
            ),
        }
    }
}

/// The keys are in strictly ascending order.
pub open spec fn keys_sorted(ks: Seq<Seq<char>>) -> bool {
    forall|i: int, j: int| 0 <= i < j < ks.len() ==> seq_lt(#[trigger] ks[i], #[trigger] ks[j])
}

/// The view of an optional value.
pub open spec fn opt_view(o: Option<Json>) -> Option<JsonV> {
    match o {
        Some(j) => Some(j@),
        None => None,
    }
}

/// The first position of `k` in `ks`, or -1.
pub open spec fn key_index(ks: Seq<Seq<char>>, k: Seq<char>) -> int {
    if exists|i: int| is_first_key(ks, k, i) {
        choose|i: int| is_first_key(ks, k, i)
    } else {
        -1
    }
}

/// `i` is the first position of `k` in `ks`.
pub open spec fn is_first_key(ks: Seq<Seq<char>>, k: Seq<char>, i: int) -> bool {
    0 <= i < ks.len() && ks[i] == k && forall|j: int| 0 <= j < i ==> ks[j] != k
}

/// A first position is unique, so it is what `key_index` gives.
pub proof fn lemma_key_index(ks: Seq<Seq<char>>, k: Seq<char>, i: int)
    requires
        is_first_key(ks, k, i),
    ensures
        key_index(ks, k) == i,
{
    let c = choose|c: int| is_first_key(ks, k, c);
    assert(is_first_key(ks, k, c));
    if c < i {
        assert(ks[c] != k);
    } else if i < c {
        assert(ks[i] != k);
    }
}

/// No position holds `k`, so `key_index` is -1.
pub proof fn lemma_key_absent(ks: Seq<Seq<char>>, k: Seq<char>)
    requires
        forall|j: int| 0 <= j < ks.len() ==> ks[j] != k,
    ensures
        key_index(ks, k) == -1,
{
}

impl JsonV {
    /// Every object inside has sorted, distinct keys and one value per key.
    pub open spec fn wf(self) -> bool
        decreases self,
    {
        match self {
            JsonV::Array(items) => forall|i: int| 0 <= i < items.len() ==> (#[trigger] items[i]).wf(),
            JsonV::Object(ks, vs) => {
                &&& ks.len() == vs.len()
                &&& keys_sorted(ks)
                &&& forall|i: int| 0 <= i < vs.len() ==> (#[trigger] vs[i]).wf()
            },
            _ => true,
        }
    }

    /// The member `k` of an object (`Value::get` with a string key).
    pub open spec fn get(self, k: Seq<char>) -> Option<JsonV> {
        match self {
            JsonV::Object(ks, vs) => {
                let i = key_index(ks, k);
                if 0 <= i < vs.len() {
                    Some(vs[i])
                } else {
                    None
                }
            },
            _ => None,
        }
    }

    /// The string held, if this is a string (`Value::as_str`).
    pub open spec fn as_str(self) -> Option<Seq<char>> {
        match self {
            JsonV::Str(s) => Some(s),
            _ => None,
        }
    }

    /// The items, if this is an array (`Value::as_array`).
    pub open spec fn as_array(self) -> Option<Seq<JsonV>> {
        match self {
            JsonV::Array(a) => Some(a),
            _ => None,
        }
    }

    /// The boolean held, if this is a boolean (`Value::as_bool`).
    pub open spec fn as_bool(self) -> Option<bool> {
        match self {
            JsonV::Bool(b) => Some(b),
            _ => None,
        }
    }

    pub open spec fn is_object(self) -> bool {
        self is Object
    }

    pub open spec fn is_array(self) -> bool {
        self is Array
    }

    pub open spec fn is_null(self) -> bool {
        self is Null
    }
}

/// `get` followed by `as_str`, the most common lookup.
pub open spec fn get_str(j: JsonV, k: Seq<char>) -> Option<Seq<char>> {
    match j.get(k) {
        Some(v) => v.as_str(),
        None => None,
    }
}

/// `get` followed by `as_array`.
pub open spec fn get_array(j: JsonV, k: Seq<char>) -> Option<Seq<JsonV>> {
    match j.get(k) {
        Some(v) => v.as_array(),
        None => None,
    }
}

// ---- Facts about the key order ---------------------------------------------

/// No sequence comes before itself.
pub proof fn lemma_seq_lt_irreflexive(a: Seq<char>)
    ensures
        !seq_lt(a, a),
    decreases a.len(),
{
    if a.len() > 0 {
        lemma_seq_lt_irreflexive(a.drop_first());
    }
}

/// Two different sequences are ordered one way or the other, and not both.
pub proof fn lemma_seq_lt_total(a: Seq<char>, b: Seq<char>)
    ensures
        a != b ==> (seq_lt(a, b) || seq_lt(b, a)),
        !(seq_lt(a, b) && seq_lt(b, a)),
    decreases a.len(),
{
    if a.len() > 0 && b.len() > 0 {
        lemma_seq_lt_total(a.drop_first(), b.drop_first());
        if a[0] == b[0] {
            if a != b {
                assert(a.drop_first() != b.drop_first()) by {
                    if a.drop_first() == b.drop_first() {
                        assert(a =~= seq![a[0]] + a.drop_first());
                        assert(b =~= seq![b[0]] + b.drop_first());
                    }
                }
            }
            assert(seq_lt(a, b) == seq_lt(a.drop_first(), b.drop_first()));
            assert(seq_lt(b, a) == seq_lt(b.drop_first(), a.drop_first()));
        } else {
        }
    } else if a.len() == 0 && b.len() == 0 {
        assert(a =~= b);
    }
}

/// The order is transitive.
pub proof fn lemma_seq_lt_transitive(a: Seq<char>, b: Seq<char>, c: Seq<char>)
    requires
        seq_lt(a, b),
        seq_lt(b, c),
    ensures
        seq_lt(a, c),
    decreases a.len(),
{
    if a.len() > 0 && b.len() > 0 && c.len() > 0 && a[0] == b[0] && b[0] == c[0] {
        lemma_seq_lt_transitive(a.drop_first(), b.drop_first(), c.drop_first());
    }
}

// ---- Equality of values ------------------------------------------------------

/// Two number texts that denote equal numbers (serde_json's `Number`
/// equality): the same text, or a floating-point zero of either sign.
pub open spec fn same_number(a: Seq<char>, b: Seq<char>) -> bool {
    a == b || ((a == "0.0"@ || a == "-0.0"@) && (b == "0.0"@ || b == "-0.0"@))
}

/// Equality of JSON values (`Value == Value`): structural, with numbers
/// compared as `same_number` does.
pub open spec fn json_eq(a: JsonV, b: JsonV) -> bool
    decreases a, 0nat,
{
    match (a, b) {
        (JsonV::Number(x), JsonV::Number(y)) => same_number(x, y),
        (JsonV::Array(xs), JsonV::Array(ys)) => items_eq(xs, ys),
        (JsonV::Object(ka, va), JsonV::Object(kb, vb)) => ka == kb && items_eq(va, vb),
        _ => a == b,
    }
}

/// Position-wise equality of two sequences of values.
pub open spec fn items_eq(xs: Seq<JsonV>, ys: Seq<JsonV>) -> bool
    decreases xs, 1nat,
{
    if xs.len() != ys.len() {
        false
    } else if xs.len() == 0 {
        true
    } else {
        items_eq(xs.subrange(0, xs.len() - 1), ys.subrange(0, ys.len() - 1)) && json_eq(xs[xs.len() - 1], ys[ys.len() - 1])
    }
}

/// Sequences are equal exactly when they are equal item by item.
pub proof fn lemma_items_eq(xs: Seq<JsonV>, ys: Seq<JsonV>)
    ensures
        items_eq(xs, ys) == (xs.len() == ys.len() && forall|i: int| 0 <= i < xs.len() ==> json_eq(#[trigger] xs[i], ys[i])),
    decreases xs.len(),
{
    if xs.len() == ys.len() && xs.len() > 0 {
        let xi = xs.subrange(0, xs.len() - 1);
        let yi = ys.subrange(0, ys.len() - 1);
        lemma_items_eq(xi, yi);
        if forall|i: int| 0 <= i < xs.len() ==> json_eq(#[trigger] xs[i], ys[i]) {
            assert forall|i: int| 0 <= i < xi.len() implies json_eq(#[trigger] xi[i], yi[i]) by {
                assert(xi[i] == xs[i] && yi[i] == ys[i]);
            }
        }
        if items_eq(xs, ys) {
            assert forall|i: int| 0 <= i < xs.len() implies json_eq(#[trigger] xs[i], ys[i]) by {
                if i < xs.len() - 1 {
                    assert(xi[i] == xs[i] && yi[i] == ys[i]);
                }
            }
        }
    }
}

/// Every value equals itself.
pub proof fn lemma_json_eq_refl(a: JsonV)
    ensures
        json_eq(a, a),
    decreases a, 0nat,
{
    match a {
        JsonV::Array(xs) => lemma_items_eq_refl(xs),
        JsonV::Object(_, vs) => lemma_items_eq_refl(vs),
        _ => {},
    }
}

proof fn lemma_items_eq_refl(xs: Seq<JsonV>)
    ensures
        items_eq(xs, xs),
    decreases xs, 1nat,
{
    if xs.len() > 0 {
        lemma_items_eq_refl(xs.subrange(0, xs.len() - 1));
        lemma_json_eq_refl(xs[xs.len() - 1]);
    }
}

/// Equality is symmetric.
pub proof fn lemma_json_eq_sym(a: JsonV, b: JsonV)
    ensures
        json_eq(a, b) == json_eq(b, a),
    decreases a, 0nat,
{
    match (a, b) {
        (JsonV::Array(xs), JsonV::Array(ys)) => lemma_items_eq_sym(xs, ys),
        (JsonV::Object(_, va), JsonV::Object(_, vb)) => lemma_items_eq_sym(va, vb),
        _ => {},
    }
}

proof fn lemma_items_eq_sym(xs: Seq<JsonV>, ys: Seq<JsonV>)
    ensures
        items_eq(xs, ys) == items_eq(ys, xs),
    decreases xs, 1nat,
{
    if xs.len() == ys.len() && xs.len() > 0 {
        lemma_items_eq_sym(xs.subrange(0, xs.len() - 1), ys.subrange(0, ys.len() - 1));
        lemma_json_eq_sym(xs[xs.len() - 1], ys[ys.len() - 1]);
    }
}

/// Whether two number texts denote equal numbers.
fn same_number_exec(a: &String, b: &String) -> (r: bool)
    ensures
        r == same_number(a@, b@),
{
    let ac = chars_of(a.as_str());
    let bc = chars_of(b.as_str());
    let pz = chars_of("0.0");
    let nz = chars_of("-0.0");
    chars_eq(&ac, &bc) || ((chars_eq(&ac, &pz) || chars_eq(&ac, &nz)) && (chars_eq(&bc, &pz) || chars_eq(&bc, &nz)))
}

// ---- Executable operations ---------------------------------------------------

impl Json {
    /// A deep copy of the value.
    #[verifier::loop_isolation(false)]
    pub fn deep_clone(&self) -> (r: Json)
        ensures
            r@ == self@,
        decreases self,
    {
        match self {
            Json::Null => Json::Null,
            Json::Bool(b) => Json::Bool(*b),
            Json::Number(n) => Json::Number(n.clone()),
            Json::Str(s) => Json::Str(s.clone()),
            Json::Array(items) => {
                let mut out: Vec<Json> = Vec::new();
                let mut i: usize = 0;
                while i < items.len()
                    invariant
                        i <= items@.len(),
                        out@.len() == i,
                        forall|j: int| 0 <= j < i ==> #[trigger] out@[j]@ == items@[j]@,
                    decreases items@.len() - i,
                {
                    proof {
                        assert(decreases_to!(*self => items@[i as int]));
                    }
                    let c = items[i].deep_clone();
                    out.push(c);
                    i = i + 1;
                }
                let r = Json::Array(out);
                assert(forall|j: int| 0 <= j < out@.len() ==> r@->Array_0[j] == out@[j]@);
                assert(r@->Array_0 =~= self@->Array_0);
                r
            },
            Json::Object(entries) => {
                let mut out: Vec<(String, Json)> = Vec::new();
                let mut i: usize = 0;
                while i < entries.len()
                    invariant
                        i <= entries@.len(),
                        out@.len() == i,
                        forall|j: int|
                            #![trigger out@[j]]
                            0 <= j < i ==> out@[j].0@ == entries@[j].0@ && out@[j].1@ == entries@[j].1@,
                    decreases entries@.len() - i,
                {
                    proof {
                        assert(decreases_to!(*self => entries@[i as int].1));
                    }
                    let k = entries[i].0.clone();
                    let v = entries[i].1.deep_clone();
                    out.push((k, v));
                    i = i + 1;
                }
                let r = Json::Object(out);
                assert(forall|j: int| 0 <= j < out@.len() ==> r@->Object_1[j] == out@[j].1@);
                assert(forall|j: int| 0 <= j < entries@.len() ==> self@->Object_1[j] == entries@[j].1@);
                assert(forall|j: int| 0 <= j < entries@.len() ==> self@->Object_0[j] == entries@[j].0@);
                assert(forall|j: int| 0 <= j < out@.len() ==> r@->Object_0[j] == out@[j].0@);
                assert(r@->Object_0 =~= self@->Object_0);
                assert(r@->Object_1 =~= self@->Object_1);
                r
            },
        }
    }

    /// Equality of two values (`Value == Value`): structural, with numbers
    /// compared by value as serde_json compares them (see `same_number`).
    #[verifier::loop_isolation(false)]
    pub fn equals(&self, other: &Json) -> (r: bool)
        ensures
            r == json_eq(self@, other@),
        decreases self,
    {
        match (self, other) {
            (Json::Null, Json::Null) => true,
            (Json::Bool(a), Json::Bool(b)) => *a == *b,
            (Json::Number(a), Json::Number(b)) => same_number_exec(a, b),
            (Json::Str(a), Json::Str(b)) => {
                let r = *a == *b;
                assert(r == (self@ == other@));
                r
            },
            (Json::Array(a), Json::Array(b)) => {
                let ghost xs = self@->Array_0;
                let ghost ys = other@->Array_0;
                assert(forall|j: int| 0 <= j < a@.len() ==> xs[j] == (#[trigger] a@[j])@);
                assert(forall|j: int| 0 <= j < b@.len() ==> ys[j] == (#[trigger] b@[j])@);
                proof {
                    lemma_items_eq(xs, ys);
                }
                if a.len() != b.len() {
                    return false;
                }
                let mut i: usize = 0;
                while i < a.len()
                    invariant
                        a@.len() == b@.len(),
                        i <= a@.len(),
                        forall|j: int| 0 <= j < i ==> json_eq(#[trigger] xs[j], ys[j]),
                    decreases a@.len() - i,
                {
                    proof {
                        assert(decreases_to!(*self => a@[i as int]));
                    }
                    if !a[i].equals(&b[i]) {
                        return false;
                    }
                    i = i + 1;
                }
                true
            },
            (Json::Object(a), Json::Object(b)) => {
                let ghost ka = self@->Object_0;
                let ghost kb = other@->Object_0;
                let ghost xs = self@->Object_1;
                let ghost ys = other@->Object_1;
                assert(forall|j: int| 0 <= j < a@.len() ==> xs[j] == (#[trigger] a@[j]).1@ && ka[j] == a@[j].0@);
                assert(forall|j: int| 0 <= j < b@.len() ==> ys[j] == (#[trigger] b@[j]).1@ && kb[j] == b@[j].0@);
                proof {
                    lemma_items_eq(xs, ys);
                }
                if a.len() != b.len() {
                    assert(ka.len() != kb.len());
                    return false;
                }
                let mut i: usize = 0;
                while i < a.len()
                    invariant
                        a@.len() == b@.len(),
                        i <= a@.len(),
                        forall|j: int| 0 <= j < i ==> json_eq(#[trigger] xs[j], ys[j]) && ka[j] == kb[j],
                    decreases a@.len() - i,
                {
                    proof {
                        assert(decreases_to!(*self => a@[i as int].1));
                    }
                    if a[i].0 != b[i].0 {
                        assert(ka[i as int] != kb[i as int]);
                        return false;
                    }
                    if !a[i].1.equals(&b[i].1) {
                        return false;
                    }
                    i = i + 1;
                }
                assert(ka =~= kb) by {
                    assert forall|j: int| 0 <= j < ka.len() implies ka[j] == kb[j] by {
                        assert(json_eq(xs[j], ys[j]) && ka[j] == kb[j]);
                    }
                }
                true
            },
            _ => {
                assert(self@ != other@);
                false
            },
        }
    }

    /// The string held, if this is a string.
    pub fn as_str(&self) -> (r: Option<&String>)
        ensures
            r matches Some(s) ==> self@.as_str() == Some(s@),
            r is None ==> self@.as_str() is None,
    {
        match self {
            Json::Str(s) => Some(s),
            _ => None,
        }
    }

    /// The items, if this is an array.
    pub fn as_array(&self) -> (r: Option<&Vec<Json>>)
        ensures
            r matches Some(a) ==> self@ == JsonV::Array(a@.map_values(|x: Json| x@)),
            r is None ==> !(self@ is Array),
    {
        match self {
            Json::Array(a) => {
                assert(self@->Array_0 =~= a@.map_values(|x: Json| x@));
                Some(a)
            },
            _ => None,
        }
    }

    /// The boolean held, if this is a boolean.
    pub fn as_bool(&self) -> (r: Option<bool>)
        ensures
            r == self@.as_bool(),
    {
        match self {
            Json::Bool(b) => Some(*b),
            _ => None,
        }
    }

    pub fn is_object(&self) -> (r: bool)
        ensures
            r == self@.is_object(),
    {
        match self {
            Json::Object(_) => true,
            _ => false,
        }
    }

    pub fn is_array(&self) -> (r: bool)
        ensures
            r == self@.is_array(),
    {
        match self {
            Json::Array(_) => true,
            _ => false,
        }
    }

    pub fn is_null(&self) -> (r: bool)
        ensures
            r == self@.is_null(),
    {
        match self {
            Json::Null => true,
            _ => false,
        }
    }

    /// The member `key` of an object; `None` for a missing key or a non-object.
    #[verifier::loop_isolation(false)]
    pub fn get(&self, key: &Vec<char>) -> (r: Option<&Json>)
        ensures
            r matches Some(v) ==> self@.get(key@) == Some(v@),
            r is None ==> self@.get(key@) is None,
    {
        match self {
            Json::Object(entries) => {
                let ghost ks = self@->Object_0;
                let mut i: usize = 0;
                while i < entries.len()
                    invariant
                        i <= entries@.len(),
                        ks.len() == entries@.len(),
                        forall|j: int| 0 <= j < entries@.len() ==> ks[j] == #[trigger] entries@[j].0@,
                        forall|j: int| 0 <= j < i ==> ks[j] != key@,
                    decreases entries@.len() - i,
                {
                    let k = chars_of(entries[i].0.as_str());
                    if chars_eq(&k, key) {
                        proof {
                            lemma_key_index(ks, key@, i as int);
                            assert(self@->Object_1[i as int] == entries@[i as int].1@);
                        }
                        return Some(&entries[i].1);
                    }
                    i = i + 1;
                }
                proof {
                    lemma_key_absent(ks, key@);
                }
                None
            },
            _ => None,
        }
    }

    /// The string member `key`, if there is one (`get(key).and_then(as_str)`).
    pub fn get_str(&self, key: &Vec<char>) -> (r: Option<&String>)
        ensures
            r matches Some(s) ==> get_str(self@, key@) == Some(s@),
            r is None ==> get_str(self@, key@) is None,
    {
        match self.get(key) {
            Some(v) => v.as_str(),
            None => None,
        }
    }

    /// The array member `key`, if there is one (`get(key).and_then(as_array)`).
    pub fn get_array(&self, key: &Vec<char>) -> (r: Option<&Vec<Json>>)
        ensures
            r matches Some(a) ==> get_array(self@, key@) == Some(a@.map_values(|x: Json| x@)),
            r is None ==> get_array(self@, key@) is None,
    {
        match self.get(key) {
            Some(v) => v.as_array(),
            None => None,
        }
    }
}

/// The views of a vector of values.
pub open spec fn views(v: Seq<Json>) -> Seq<JsonV> {
    v.map_values(|x: Json| x@)
}

// ---- JSON text ----------------------------------------------------------------

/// A lower-case hexadecimal digit.
pub open spec fn hex_digit(d: u32) -> char {
    if d < 10 {
        ((d + 48) as u8) as char
    } else {
        ((d + 87) as u8) as char
    }
}

/// How one character of a string is written inside JSON quotes.
pub open spec fn escape_char(c: char) -> Seq<char> {
    if c == '"' {
        seq!['\\', '"']
    } else if c == '\\' {
        seq!['\\', '\\']
    } else if c == '\x08' {
        seq!['\\', 'b']
    } else if c == '\x0c' {
        seq!['\\', 'f']
    } else if c == '\n' {
        seq!['\\', 'n']
    } else if c == '\r' {
        seq!['\\', 'r']
    } else if c == '\t' {
        seq!['\\', 't']
    } else if (c as u32) < 32 {
        seq!['\\', 'u', '0', '0', hex_digit((c as u32) / 16), hex_digit((c as u32) % 16)]
    } else {
        seq![c]
    }
}

/// The characters of `s` as written inside JSON quotes.
pub open spec fn escape_str(s: Seq<char>) -> Seq<char>
    decreases s.len(),
{
    if s.len() == 0 {
        Seq::empty()
    } else {
        escape_str(s.drop_last()) + escape_char(s.last())
    }
}

/// A JSON string literal holding `s`.
pub open spec fn quoted(s: Seq<char>) -> Seq<char> {
    seq!['"'] + escape_str(s) + seq!['"']
}

impl JsonV {
    /// The compact JSON text of the value (what `Value`'s `Display` prints).
    pub open spec fn text(self) -> Seq<char>
        decreases self, 0nat,
    {
        match self {
            JsonV::Null => "null"@,
            JsonV::Bool(b) => if b { "true"@ } else { "false"@ },
            JsonV::Number(n) => n,
            JsonV::Str(s) => quoted(s),
            JsonV::Array(items) => seq!['['] + items_text(items) + seq![']'],
            JsonV::Object(ks, vs) => seq!['{'] + members_text(ks, vs) + seq!['}'],
        }
    }
}

/// The items of an array, separated by commas.
pub open spec fn items_text(items: Seq<JsonV>) -> Seq<char>
    decreases items, 1nat,
{
    if items.len() == 0 {
        Seq::empty()
    } else if items.len() == 1 {
        items[0].text()
    } else {
        items_text(items.subrange(0, items.len() - 1)) + seq![','] + items[items.len() - 1].text()
    }
}

/// The members of an object, separated by commas.
pub open spec fn members_text(ks: Seq<Seq<char>>, vs: Seq<JsonV>) -> Seq<char>
    decreases vs, 1nat,
{
    if vs.len() == 0 {
        Seq::empty()
    } else if vs.len() == 1 {
        quoted(ks[0]) + seq![':'] + vs[0].text()
    } else {
        members_text(ks, vs.subrange(0, vs.len() - 1)) + seq![','] + quoted(ks[vs.len() - 1]) + seq![':']
            + vs[vs.len() - 1].text()
    }
}

fn hex_digit_exec(d: u32) -> (c: char)
    requires
        d < 16,
    ensures
        c == hex_digit(d),
{
    if d < 10 {
        ((d + 48) as u8) as char
    } else {
        ((d + 87) as u8) as char
    }
}

/// Appends the escaped form of `c`.
fn write_escaped_char(c: char, out: &mut Vec<char>)
    ensures
        final(out)@ == old(out)@ + escape_char(c),
{
    if c == '"' {
        out.push('\\');
        out.push('"');
    } else if c == '\\' {
        out.push('\\');
        out.push('\\');
    } else if c == '\x08' {
        out.push('\\');
        out.push('b');
    } else if c == '\x0c' {
        out.push('\\');
        out.push('f');
    } else if c == '\n' {
        out.push('\\');
        out.push('n');
    } else if c == '\r' {
        out.push('\\');
        out.push('r');
    } else if c == '\t' {
        out.push('\\');
        out.push('t');
    } else if (c as u32) < 32 {
        let code = c as u32;
        out.push('\\');
        out.push('u');
        out.push('0');
        out.push('0');
        out.push(hex_digit_exec(code / 16));
        out.push(hex_digit_exec(code % 16));
    } else {
        out.push(c);
    }
    assert(out@ =~= old(out)@ + escape_char(c));
}

/// Appends `s` as a JSON string literal.
pub fn write_quoted(s: &Vec<char>, out: &mut Vec<char>)
    ensures
        final(out)@ == old(out)@ + quoted(s@),
{
    out.push('"');
    let mut i: usize = 0;
    while i < s.len()
        invariant
            i <= s@.len(),
            out@ == old(out)@ + seq!['"'] + escape_str(s@.subrange(0, i as int)),
        decreases s@.len() - i,
    {
        assert(s@.subrange(0, i + 1).drop_last() =~= s@.subrange(0, i as int));
        write_escaped_char(s[i], out);
        i = i + 1;
        assert(out@ =~= old(out)@ + seq!['"'] + escape_str(s@.subrange(0, i as int)));
    }
    assert(s@.subrange(0, s@.len() as int) =~= s@);
    out.push('"');
    assert(out@ =~= old(out)@ + quoted(s@));
}

impl Json {
    /// Appends the compact JSON text of the value.
    #[verifier::loop_isolation(false)]
    #[verifier::spinoff_prover]
    #[verifier::rlimit(40)]
    pub fn write_text(&self, out: &mut Vec<char>)
        ensures
            final(out)@ == old(out)@ + self@.text(),
        decreases self,
    {
        match self {
            Json::Null => {
                let t = chars_of("null");
                extend_chars(out, &t);
            },
            Json::Bool(b) => {
                if *b {
                    let t = chars_of("true");
                    extend_chars(out, &t);
                } else {
                    let t = chars_of("false");
                    extend_chars(out, &t);
                }
            },
            Json::Number(n) => {
                let t = chars_of(n.as_str());
                extend_chars(out, &t);
            },
            Json::Str(s) => {
                let t = chars_of(s.as_str());
                write_quoted(&t, out);
            },
            Json::Array(items) => {
                let ghost iv = self@->Array_0;
                assert(forall|x: int| 0 <= x < items@.len() ==> iv[x] == (#[trigger] items@[x])@);
                out.push('[');
                let mut i: usize = 0;
                while i < items.len()
                    invariant
                        i <= items@.len(),
                        iv.len() == items@.len(),
                        out@ == old(out)@ + seq!['['] + items_text(iv.subrange(0, i as int)),
                    decreases items@.len() - i,
                {
                    if i > 0 {
                        out.push(',');
                    }
                    proof {
                        assert(decreases_to!(*self => items@[i as int]));
                    }
                    items[i].write_text(out);
                    assert(iv.subrange(0, i + 1).subrange(0, i as int) =~= iv.subrange(0, i as int));
                    i = i + 1;
                    assert(out@ =~= old(out)@ + seq!['['] + items_text(iv.subrange(0, i as int)));
                }
                assert(iv.subrange(0, iv.len() as int) =~= iv);
                out.push(']');
                assert(out@ =~= old(out)@ + self@.text());
            },
            Json::Object(entries) => {
                let ghost ks = self@->Object_0;
                let ghost vs = self@->Object_1;
                assert(forall|x: int| 0 <= x < entries@.len() ==> ks[x] == (#[trigger] entries@[x]).0@ && vs[x] == entries@[x].1@);
                out.push('{');
                let mut i: usize = 0;
                while i < entries.len()
                    invariant
                        i <= entries@.len(),
                        ks.len() == entries@.len(),
                        vs.len() == entries@.len(),
                        out@ == old(out)@ + seq!['{'] + members_text(ks, vs.subrange(0, i as int)),
                    decreases entries@.len() - i,
                {
                    if i > 0 {
                        out.push(',');
                    }
                    let k = chars_of(entries[i].0.as_str());
                    write_quoted(&k, out);
                    out.push(':');
                    proof {
                        assert(decreases_to!(*self => entries@[i as int].1));
                    }
                    entries[i].1.write_text(out);
                    assert(vs.subrange(0, i + 1).subrange(0, i as int) =~= vs.subrange(0, i as int));
                    i = i + 1;
                    assert(out@ =~= old(out)@ + seq!['{'] + members_text(ks, vs.subrange(0, i as int)));
                }
                assert(vs.subrange(0, vs.len() as int) =~= vs);
                out.push('}');
                assert(out@ =~= old(out)@ + self@.text());
            },
        }
    }
}

// ---- Indented JSON text ---------------------------------------------------------------

/// Two spaces per nesting level.
pub open spec fn indent_of(level: nat) -> Seq<char> {
    Seq::new(2 * level, |i: int| ' ')
}

impl JsonV {
    /// The indented JSON text of the value at nesting `level` (what
    /// `serde_json::to_string_pretty` prints at the top level): each item and
    /// member on a line of its own, indented two spaces per level; an empty
    /// array or object stays `[]` or `{}`.
    pub open spec fn pretty(self, level: nat) -> Seq<char>
        decreases self, 0nat,
    {
        match self {
            JsonV::Array(items) => if items.len() == 0 {
                seq!['[', ']']
            } else {
                seq!['['] + items_pretty(items, level + 1) + seq!['\n'] + indent_of(level) + seq![']']
            },
            JsonV::Object(ks, vs) => if vs.len() == 0 {
                seq!['{', '}']
            } else {
                seq!['{'] + members_pretty(ks, vs, level + 1) + seq!['\n'] + indent_of(level) + seq!['}']
            },
            _ => self.text(),
        }
    }
}

/// What precedes the `n`-th item or member: a line break, after a comma for
/// all but the first.
pub open spec fn pretty_sep(n: int) -> Seq<char> {
    if n == 0 {
        seq!['\n']
    } else {
        seq![',', '\n']
    }
}

/// The items of an indented array.
pub open spec fn items_pretty(items: Seq<JsonV>, level: nat) -> Seq<char>
    decreases items, 1nat,
{
    if items.len() == 0 {
        Seq::empty()
    } else {
        items_pretty(items.subrange(0, items.len() - 1), level) + pretty_sep(items.len() - 1) + indent_of(level)
            + items[items.len() - 1].pretty(level)
    }
}

/// The members of an indented object.
pub open spec fn members_pretty(ks: Seq<Seq<char>>, vs: Seq<JsonV>, level: nat) -> Seq<char>
    decreases vs, 1nat,
{
    if vs.len() == 0 {
        Seq::empty()
    } else {
        members_pretty(ks, vs.subrange(0, vs.len() - 1), level) + pretty_sep(vs.len() - 1) + indent_of(level) + quoted(
            ks[vs.len() - 1],
        ) + seq![':', ' '] + vs[vs.len() - 1].pretty(level)
    }
}

fn write_indent(level: usize, out: &mut Vec<char>)
    ensures
        final(out)@ == old(out)@ + indent_of(level as nat),
{
    let mut i: usize = 0;
    while i < level
        invariant
            i <= level,
            out@ == old(out)@ + indent_of(i as nat),
        decreases level - i,
    {
        out.push(' ');
        out.push(' ');
        i = i + 1;
        assert(out@ =~= old(out)@ + indent_of(i as nat));
    }
}

impl Json {
    /// Appends the indented JSON text of the value at nesting `level`.
    #[verifier::loop_isolation(false)]
    #[verifier::spinoff_prover]
    #[verifier::rlimit(60)]
    pub fn write_pretty(&self, level: usize, out: &mut Vec<char>)
        requires
            level + self@.depth() < usize::MAX,
        ensures
            final(out)@ == old(out)@ + self@.pretty(level as nat),
        decreases self,
    {
        match self {
            Json::Array(items) => {
                let ghost iv = self@->Array_0;
                assert(forall|x: int| 0 <= x < items@.len() ==> iv[x] == (#[trigger] items@[x])@);
                if items.len() == 0 {
                    out.push('[');
                    out.push(']');
                    assert(out@ =~= old(out)@ + self@.pretty(level as nat));
                    return;
                }
                out.push('[');
                let mut i: usize = 0;
                while i < items.len()
                    invariant
                        i <= items@.len(),
                        iv.len() == items@.len(),
                        out@ == old(out)@ + seq!['['] + items_pretty(iv.subrange(0, i as int), (level + 1) as nat),
                    decreases items@.len() - i,
                {
                    if i > 0 {
                        out.push(',');
                    }
                    out.push('\n');
                    write_indent(level + 1, out);
                    proof {
                        assert(decreases_to!(*self => items@[i as int]));
                        lemma_item_depth(iv, i as int);
                    }
                    items[i].write_pretty(level + 1, out);
                    assert(iv.subrange(0, i + 1).subrange(0, i as int) =~= iv.subrange(0, i as int));
                    i = i + 1;
                    assert(out@ =~= old(out)@ + seq!['['] + items_pretty(iv.subrange(0, i as int), (level + 1) as nat));
                }
                assert(iv.subrange(0, iv.len() as int) =~= iv);
                out.push('\n');
                write_indent(level, out);
                out.push(']');
                assert(out@ =~= old(out)@ + self@.pretty(level as nat));
            },
            Json::Object(entries) => {
                let ghost ks = self@->Object_0;
                let ghost vs = self@->Object_1;
                assert(forall|x: int| 0 <= x < entries@.len() ==> ks[x] == (#[trigger] entries@[x]).0@ && vs[x] == entries@[x].1@);
                if entries.len() == 0 {
                    out.push('{');
                    out.push('}');
                    assert(out@ =~= old(out)@ + self@.pretty(level as nat));
                    return;
                }
                out.push('{');
                let mut i: usize = 0;
                while i < entries.len()
                    invariant
                        i <= entries@.len(),
                        ks.len() == entries@.len(),
                        vs.len() == entries@.len(),
                        out@ == old(out)@ + seq!['{'] + members_pretty(ks, vs.subrange(0, i as int), (level + 1) as nat),
                    decreases entries@.len() - i,
                {
                    if i > 0 {
                        out.push(',');
                    }
                    out.push('\n');
                    write_indent(level + 1, out);
                    let k = chars_of(entries[i].0.as_str());
                    write_quoted(&k, out);
                    out.push(':');
                    out.push(' ');
                    proof {
                        assert(decreases_to!(*self => entries@[i as int].1));
                        lemma_depth_max(vs, i as int);
                    }
                    entries[i].1.write_pretty(level + 1, out);
                    assert(vs.subrange(0, i + 1).subrange(0, i as int) =~= vs.subrange(0, i as int));
                    i = i + 1;
                    assert(out@ =~= old(out)@ + seq!['{'] + members_pretty(ks, vs.subrange(0, i as int), (level + 1) as nat));
                }
                assert(vs.subrange(0, vs.len() as int) =~= vs);
                out.push('\n');
                write_indent(level, out);
                out.push('}');
                assert(out@ =~= old(out)@ + self@.pretty(level as nat));
            },
            _ => {
                self.write_text(out);
            },
        }
    }

    /// The indented JSON text of the value.
    pub fn to_pretty_string(&self) -> (r: String)
        requires
            self@.depth() < usize::MAX,
        ensures
            r@ == self@.pretty(0),
    {
        let mut out: Vec<char> = Vec::new();
        self.write_pretty(0, &mut out);
        assert(out@ =~= self@.pretty(0));
        string_from(&out)
    }
}

// ---- Nesting depth ------------------------------------------------------------------

impl JsonV {
    /// How deeply arrays and objects nest: 0 for a scalar, one more than the
    /// deepest member or item for an array or object.
    pub open spec fn depth(self) -> nat
        decreases self, 0nat,
    {
        match self {
            JsonV::Array(items) => 1 + depth_max(items),
            JsonV::Object(_, vs) => 1 + depth_max(vs),
            _ => 0,
        }
    }
}

/// The greatest depth among `s`, 0 when empty.
pub open spec fn depth_max(s: Seq<JsonV>) -> nat
    decreases s, 1nat,
{
    if s.len() == 0 {
        0
    } else {
        let a = depth_max(s.subrange(0, s.len() - 1));
        let b = s[s.len() - 1].depth();
        if a >= b {
            a
        } else {
            b
        }
    }
}

/// Each element is no deeper than the deepest.
pub proof fn lemma_depth_max(s: Seq<JsonV>, i: int)
    requires
        0 <= i < s.len(),
    ensures
        s[i].depth() <= depth_max(s),
    decreases s.len(),
{
    if i < s.len() - 1 {
        lemma_depth_max(s.subrange(0, s.len() - 1), i);
    }
}

/// When no element is deeper than `n`, neither is the deepest.
pub proof fn lemma_depth_max_bound(s: Seq<JsonV>, n: nat)
    requires
        forall|i: int| 0 <= i < s.len() ==> (#[trigger] s[i]).depth() <= n,
    ensures
        depth_max(s) <= n,
    decreases s.len(),
{
    if s.len() > 0 {
        let init = s.subrange(0, s.len() - 1);
        assert forall|i: int| 0 <= i < init.len() implies (#[trigger] init[i]).depth() <= n by {
            assert(init[i] == s[i]);
        }
        lemma_depth_max_bound(init, n);
    }
}

/// A member is shallower than its object.
pub proof fn lemma_get_depth(j: JsonV, k: Seq<char>)
    ensures
        j.get(k) matches Some(v) ==> v.depth() < j.depth(),
{
    if let JsonV::Object(ks, vs) = j {
        let i = key_index(ks, k);
        if 0 <= i < vs.len() {
            lemma_depth_max(vs, i);
        }
    }
}

/// An item is shallower than its array.
pub proof fn lemma_item_depth(a: Seq<JsonV>, i: int)
    requires
        0 <= i < a.len(),
    ensures
        a[i].depth() < JsonV::Array(a).depth(),
{
    lemma_depth_max(a, i);
}

/// A member is a part of its object.
pub proof fn lemma_get_smaller(j: JsonV, k: Seq<char>)
    ensures
        j.get(k) matches Some(v) ==> decreases_to!(j => v),
{
    if let JsonV::Object(ks, vs) = j {
        let i = key_index(ks, k);
        if 0 <= i < vs.len() {
            assert(decreases_to!(j => vs[i]));
        }
    }
}

/// The items of an array member are a part of its object.
pub proof fn lemma_get_array_smaller(j: JsonV, k: Seq<char>)
    ensures
        get_array(j, k) matches Some(a) ==> decreases_to!(j => a),
        get_array(j, k) matches Some(a) ==> a.len() == 0 || depth_max(a) + 2 <= j.depth(),
{
    lemma_get_smaller(j, k);
    lemma_get_depth(j, k);
}

// ---- Members by position ----------------------------------------------------------

/// The keys of object members.
pub open spec fn member_keys(e: Seq<(String, Json)>) -> Seq<Seq<char>> {
    e.map_values(|m: (String, Json)| m.0@)
}

/// The values of object members.
pub open spec fn member_values(e: Seq<(String, Json)>) -> Seq<JsonV> {
    e.map_values(|m: (String, Json)| m.1@)
}

/// The view of an object is its keys and values, position by position.
pub proof fn lemma_object_view(e: Vec<(String, Json)>)
    ensures
        Json::Object(e)@ == JsonV::Object(member_keys(e@), member_values(e@)),
{
    let j = Json::Object(e);
    assert(j@->Object_0 =~= member_keys(e@));
    assert(j@->Object_1 =~= member_values(e@));
}

/// The value of the last member with key `k` among the first ones that have it,
/// looked up from the end: the first member with that key.
pub open spec fn lookup(ks: Seq<Seq<char>>, vs: Seq<JsonV>, k: Seq<char>) -> Option<JsonV>
    decreases ks.len(),
{
    if ks.len() == 0 {
        None
    } else {
        match lookup(ks.drop_last(), vs.drop_last(), k) {
            Some(x) => Some(x),
            None => if ks.last() == k {
                Some(vs.last())
            } else {
                None
            },
        }
    }
}

/// Looking a key up member by member gives what `get` gives.
pub proof fn lemma_lookup(ks: Seq<Seq<char>>, vs: Seq<JsonV>, k: Seq<char>)
    requires
        ks.len() == vs.len(),
    ensures
        lookup(ks, vs, k) == JsonV::Object(ks, vs).get(k),
    decreases ks.len(),
{
    if ks.len() > 0 {
        let kd = ks.drop_last();
        let vd = vs.drop_last();
        lemma_lookup(kd, vd, k);
        let i = key_index(kd, k);
        if 0 <= i {
            let c = choose|c: int| is_first_key(kd, k, c);
            assert(is_first_key(kd, k, c));
            lemma_key_index(kd, k, c);
            assert(is_first_key(ks, k, c)) by {
                assert forall|m: int| 0 <= m < c implies ks[m] != k by {
                    assert(kd[m] == ks[m]);
                }
            }
            lemma_key_index(ks, k, c);
        } else {
            assert forall|m: int| 0 <= m < kd.len() implies kd[m] != k by {
                if kd[m] == k {
                    lemma_first_position(kd, k, m);
                }
            }
            if ks.last() == k {
                assert(is_first_key(ks, k, ks.len() - 1)) by {
                    assert forall|m: int| 0 <= m < ks.len() - 1 implies ks[m] != k by {
                        assert(kd[m] == ks[m]);
                    }
                }
                lemma_key_index(ks, k, ks.len() - 1);
            } else {
                assert forall|m: int| 0 <= m < ks.len() implies ks[m] != k by {
                    if m < ks.len() - 1 {
                        assert(kd[m] == ks[m]);
                    }
                }
                lemma_key_absent(ks, k);
            }
        }
    } else {
        lemma_key_absent(ks, k);
    }
}

// ---- Checking the nesting depth -----------------------------------------------------------

impl Json {
    /// Whether arrays and objects nest at most `n` levels deep.
    #[verifier::loop_isolation(false)]
    pub fn depth_within(&self, n: u64) -> (r: bool)
        ensures
            r == (self@.depth() <= n),
        decreases self,
    {
        match self {
            Json::Array(items) => {
                let ghost iv = self@->Array_0;
                assert(forall|x: int| 0 <= x < items@.len() ==> iv[x] == (#[trigger] items@[x])@);
                if n == 0 {
                    return false;
                }
                let mut i: usize = 0;
                while i < items.len()
                    invariant
                        i <= items@.len(),
                        iv.len() == items@.len(),
                        n > 0,
                        forall|x: int| 0 <= x < i ==> (#[trigger] iv[x]).depth() <= n - 1,
                    decreases items@.len() - i,
                {
                    proof {
                        assert(decreases_to!(*self => items@[i as int]));
                    }
                    if !items[i].depth_within(n - 1) {
                        proof {
                            lemma_depth_max(iv, i as int);
                        }
                        return false;
                    }
                    i = i + 1;
                }
                proof {
                    lemma_depth_max_bound(iv, (n - 1) as nat);
                }
                true
            },
            Json::Object(entries) => {
                let ghost vs = self@->Object_1;
                assert(forall|x: int| 0 <= x < entries@.len() ==> vs[x] == (#[trigger] entries@[x]).1@);
                if n == 0 {
                    return false;
                }
                let mut i: usize = 0;
                while i < entries.len()
                    invariant
                        i <= entries@.len(),
                        vs.len() == entries@.len(),
                        n > 0,
                        forall|x: int| 0 <= x < i ==> (#[trigger] vs[x]).depth() <= n - 1,
                    decreases entries@.len() - i,
                {
                    proof {
                        assert(decreases_to!(*self => entries@[i as int].1));
                    }
                    if !entries[i].1.depth_within(n - 1) {
                        proof {
                            lemma_depth_max(vs, i as int);
                        }
                        return false;
                    }
                    i = i + 1;
                }
                proof {
                    lemma_depth_max_bound(vs, (n - 1) as nat);
                }
                true
            },
            _ => true,
        }
    }
}

// ---- Setting members -------------------------------------------------------------

/// Where a key belongs among keys in ascending order: after every key that
/// comes before it.
pub open spec fn lower_bound(ks: Seq<Seq<char>>, k: Seq<char>) -> int
    decreases ks.len(),
{
    if ks.len() == 0 {
        0
    } else if seq_lt(ks.last(), k) {
        ks.len() as int
    } else {
        lower_bound(ks.drop_last(), k)
    }
}

impl JsonV {
    /// Whether this is an object with the member `k` (`Map::contains_key`).
    pub open spec fn has_key(self, k: Seq<char>) -> bool {
        self.get(k) is Some
    }

    /// The object with member `k` set to `v` (`Map::insert`): a member that is
    /// there takes the new value in place; a new one goes where its key belongs
    /// in key order. Anything but an object is left as it is.
    pub open spec fn insert(self, k: Seq<char>, v: JsonV) -> JsonV {
        match self {
            JsonV::Object(ks, vs) => {
                let i = key_index(ks, k);
                if 0 <= i {
                    JsonV::Object(ks, vs.update(i, v))
                } else {
                    let p = lower_bound(ks, k);
                    JsonV::Object(ks.insert(p, k), vs.insert(p, v))
                }
            },
            _ => self,
        }
    }
}

/// The position where a key belongs lies within the keys.
pub proof fn lemma_lower_bound_range(ks: Seq<Seq<char>>, k: Seq<char>)
    ensures
        0 <= lower_bound(ks, k) <= ks.len(),
    decreases ks.len(),
{
    if ks.len() > 0 {
        lemma_lower_bound_range(ks.drop_last(), k);
    }
}

/// Among sorted keys without `k`, every key before its position comes before
/// `k` and every key from it on comes after.
pub proof fn lemma_lower_bound_sorted(ks: Seq<Seq<char>>, k: Seq<char>)
    requires
        keys_sorted(ks),
        forall|j: int| 0 <= j < ks.len() ==> ks[j] != k,
    ensures
        forall|j: int| 0 <= j < lower_bound(ks, k) ==> seq_lt(#[trigger] ks[j], k),
        forall|j: int| lower_bound(ks, k) <= j < ks.len() ==> seq_lt(k, #[trigger] ks[j]),
    decreases ks.len(),
{
    lemma_lower_bound_range(ks, k);
    if ks.len() > 0 {
        let last = ks.last();
        if seq_lt(last, k) {
            assert forall|j: int| 0 <= j < ks.len() implies seq_lt(#[trigger] ks[j], k) by {
                if j < ks.len() - 1 {
                    lemma_seq_lt_transitive(ks[j], last, k);
                }
            }
        } else {
            lemma_seq_lt_total(last, k);
            let rest = ks.drop_last();
            assert(keys_sorted(rest)) by {
                assert forall|a: int, b: int| 0 <= a < b < rest.len() implies seq_lt(#[trigger] rest[a], #[trigger] rest[b]) by {
                    assert(rest[a] == ks[a] && rest[b] == ks[b]);
                }
            }
            lemma_lower_bound_sorted(rest, k);
            assert forall|j: int| lower_bound(ks, k) <= j < ks.len() implies seq_lt(k, #[trigger] ks[j]) by {
                if j < ks.len() - 1 {
                    assert(rest[j] == ks[j]);
                }
            }
            assert forall|j: int| 0 <= j < lower_bound(ks, k) implies seq_lt(#[trigger] ks[j], k) by {
                assert(rest[j] == ks[j]);
            }
        }
    }
}

/// Setting a member keeps a well-formed object well-formed, and the member
/// reads back as what was set while every other member stays as it was.
pub proof fn lemma_insert(j: JsonV, k: Seq<char>, v: JsonV)
    requires
        j.wf(),
        v.wf(),
        j is Object,
    ensures
        j.insert(k, v).wf(),
        j.insert(k, v).get(k) == Some(v),
        forall|k2: Seq<char>| k2 != k ==> #[trigger] j.insert(k, v).get(k2) == j.get(k2),
        forall|k2: Seq<char>| #[trigger] j.insert(k, v).has_key(k2) == (j.has_key(k2) || k2 == k),
{
    if let JsonV::Object(ks, vs) = j {
        let i = key_index(ks, k);
        if 0 <= i {
            let c = choose|c: int| is_first_key(ks, k, c);
            assert(is_first_key(ks, k, c));
            lemma_key_index(ks, k, c);
            let r = j.insert(k, v);
            assert(r == JsonV::Object(ks, vs.update(i, v)));
            assert forall|n: int| 0 <= n < vs.update(i, v).len() implies (#[trigger] vs.update(i, v)[n]).wf() by {
                if n != i {
                    assert(vs[n].wf());
                }
            }
            assert forall|k2: Seq<char>| k2 != k implies #[trigger] r.get(k2) == j.get(k2) by {
                let i2 = key_index(ks, k2);
                if 0 <= i2 {
                    let c2 = choose|c2: int| is_first_key(ks, k2, c2);
                    assert(is_first_key(ks, k2, c2));
                    lemma_key_index(ks, k2, c2);
                    assert(i2 != i);
                }
            }
            assert forall|k2: Seq<char>| #[trigger] r.has_key(k2) == (j.has_key(k2) || k2 == k) by {
                if k2 != k {
                    assert(r.get(k2) == j.get(k2));
                }
            }
        } else {
            assert(forall|n: int| 0 <= n < ks.len() ==> ks[n] != k) by {
                assert forall|n: int| 0 <= n < ks.len() implies ks[n] != k by {
                    if ks[n] == k {
                        // the first position of k would exist
                        let mut m: int = n;
                        assert(exists|c: int| is_first_key(ks, k, c)) by {
                            lemma_first_position(ks, k, n);
                        }
                    }
                }
            }
            lemma_lower_bound_range(ks, k);
            lemma_lower_bound_sorted(ks, k);
            let p = lower_bound(ks, k);
            let ks2 = ks.insert(p, k);
            let vs2 = vs.insert(p, v);
            let r = JsonV::Object(ks2, vs2);
            assert(r == j.insert(k, v));
            assert(keys_sorted(ks2)) by {
                assert forall|a: int, b: int| 0 <= a < b < ks2.len() implies seq_lt(#[trigger] ks2[a], #[trigger] ks2[b]) by {
                    if b < p {
                        assert(ks2[a] == ks[a] && ks2[b] == ks[b]);
                    } else if b == p {
                        assert(ks2[a] == ks[a]);
                    } else if a < p {
                        assert(ks2[a] == ks[a] && ks2[b] == ks[b - 1]);
                        lemma_seq_lt_transitive(ks[a], k, ks[b - 1]);
                    } else if a == p {
                        assert(ks2[b] == ks[b - 1]);
                    } else {
                        assert(ks2[a] == ks[a - 1] && ks2[b] == ks[b - 1]);
                    }
                }
            }
            assert forall|n: int| 0 <= n < vs2.len() implies (#[trigger] vs2[n]).wf() by {
                if n < p {
                    assert(vs2[n] == vs[n]);
                } else if n > p {
                    assert(vs2[n] == vs[n - 1]);
                }
            }
            assert(is_first_key(ks2, k, p));
            lemma_key_index(ks2, k, p);
            assert forall|k2: Seq<char>| k2 != k implies #[trigger] r.get(k2) == j.get(k2) by {
                let i2 = key_index(ks, k2);
                if 0 <= i2 {
                    let c2 = choose|c2: int| is_first_key(ks, k2, c2);
                    assert(is_first_key(ks, k2, c2));
                    lemma_key_index(ks, k2, c2);
                    let n2 = if c2 < p { c2 } else { c2 + 1 };
                    assert(is_first_key(ks2, k2, n2)) by {
                        assert forall|m: int| 0 <= m < n2 implies ks2[m] != k2 by {
                            if m < p {
                                assert(ks2[m] == ks[m]);
                            } else if m > p {
                                assert(ks2[m] == ks[m - 1]);
                            }
                        }
                    }
                    lemma_key_index(ks2, k2, n2);
                } else {
                    assert forall|m: int| 0 <= m < ks2.len() implies ks2[m] != k2 by {
                        if m < p {
                            assert(ks2[m] == ks[m]);
                            if ks[m] == k2 {
                                lemma_first_position(ks, k2, m);
                            }
                        } else if m > p {
                            assert(ks2[m] == ks[m - 1]);
                            if ks[m - 1] == k2 {
                                lemma_first_position(ks, k2, m - 1);
                            }
                        }
                    }
                    lemma_key_absent(ks2, k2);
                }
            }
            assert forall|k2: Seq<char>| #[trigger] r.has_key(k2) == (j.has_key(k2) || k2 == k) by {
                if k2 != k {
                    assert(r.get(k2) == j.get(k2));
                }
            }
        }
    }
}

/// A key that occurs has a first position.
pub proof fn lemma_first_position(ks: Seq<Seq<char>>, k: Seq<char>, n: int)
    requires
        0 <= n < ks.len(),
        ks[n] == k,
    ensures
        exists|c: int| is_first_key(ks, k, c),
        0 <= key_index(ks, k),
    decreases n,
{
    if exists|m: int| 0 <= m < n && ks[m] == k {
        let m = choose|m: int| 0 <= m < n && ks[m] == k;
        lemma_first_position(ks, k, m);
    } else {
        assert(is_first_key(ks, k, n));
        lemma_key_index(ks, k, n);
    }
}

impl Json {
    /// Whether this is an object with the member `key`.
    pub fn contains_key(&self, key: &Vec<char>) -> (r: bool)
        ensures
            r == self@.has_key(key@),
    {
        match self.get(key) {
            Some(_) => true,
            None => false,
        }
    }

    /// The value with member `key` set to `value` (`Map::insert`); anything
    /// but an object is returned as it is.
    pub fn with_member(self, key: String, value: Json) -> (r: Json)
        ensures
            r@ == self@.insert(key@, value@),
    {
        let ghost old_view = self@;
        match self {
            Json::Object(entries) => {
                let ghost ks = old_view->Object_0;
                let ghost vs = old_view->Object_1;
                assert(forall|j: int| 0 <= j < entries@.len() ==> ks[j] == #[trigger] entries@[j].0@);
                assert(forall|j: int| 0 <= j < entries@.len() ==> vs[j] == #[trigger] entries@[j].1@);
                let kc = chars_of(key.as_str());
                let mut entries = entries;
                let mut i: usize = 0;
                while i < entries.len()
                    invariant
                        i <= entries@.len(),
                        old_view == JsonV::Object(ks, vs),
                        old_view == self@,
                        ks.len() == entries@.len(),
                        vs.len() == entries@.len(),
                        kc@ == key@,
                        forall|j: int| 0 <= j < entries@.len() ==> ks[j] == #[trigger] entries@[j].0@,
                        forall|j: int| 0 <= j < entries@.len() ==> vs[j] == #[trigger] entries@[j].1@,
                        forall|j: int| 0 <= j < i ==> ks[j] != key@,
                    decreases entries@.len() - i,
                {
                    if chars_eq(&chars_of(entries[i].0.as_str()), &kc) {
                        proof {
                            lemma_key_index(ks, key@, i as int);
                        }
                        let ghost value_view = value@;
                        let ghost before = entries@;
                        entries.set(i, (key, value));
                        let r = Json::Object(entries);
                        proof {
                            assert(entries@[i as int].1@ == value_view);
                            assert(forall|j: int| 0 <= j < entries@.len() && j != i ==> entries@[j] == before[j]);
                            assert(forall|j: int| 0 <= j < entries@.len() ==> r@->Object_1[j] == entries@[j].1@);
                            assert(r@->Object_0 =~= ks);
                            assert(r@->Object_1 =~= vs.update(i as int, value_view));
                            assert(r@ == JsonV::Object(ks, vs.update(i as int, value_view)));
                            assert(old_view.insert(key@, value_view) == JsonV::Object(ks, vs.update(i as int, value_view)));
                        }
                        return r;
                    }
                    i = i + 1;
                }
                proof {
                    lemma_key_absent(ks, key@);
                }
                let mut p: usize = entries.len();
                assert(ks.subrange(0, ks.len() as int) =~= ks);
                while p > 0 && !seq_lt_exec(&chars_of(entries[p - 1].0.as_str()), &kc)
                    invariant
                        p <= entries@.len(),
                        ks.len() == entries@.len(),
                        kc@ == key@,
                        forall|j: int| 0 <= j < entries@.len() ==> ks[j] == #[trigger] entries@[j].0@,
                        lower_bound(ks, key@) == lower_bound(ks.subrange(0, p as int), key@),
                    decreases p,
                {
                    assert(ks.subrange(0, p as int).drop_last() =~= ks.subrange(0, p - 1));
                    p = p - 1;
                }
                proof {
                    if p > 0 {
                        assert(ks.subrange(0, p as int).last() == ks[p - 1]);
                    }
                }
                let ghost value_view = value@;
                let ghost before = entries@;
                entries.insert(p, (key, value));
                let r = Json::Object(entries);
                proof {
                    assert(forall|j: int| 0 <= j < entries@.len() ==> r@->Object_1[j] == entries@[j].1@);
                    assert(forall|j: int| 0 <= j < entries@.len() ==> r@->Object_0[j] == entries@[j].0@);
                    assert forall|j: int| 0 <= j < entries@.len() implies r@->Object_1[j] == vs.insert(p as int, value_view)[j] by {
                        if j < p {
                            assert(entries@[j] == before[j]);
                        } else if j > p {
                            assert(entries@[j] == before[j - 1]);
                        }
                    }
                    assert forall|j: int| 0 <= j < entries@.len() implies r@->Object_0[j] == ks.insert(p as int, key@)[j] by {
                        if j < p {
                            assert(entries@[j] == before[j]);
                        } else if j > p {
                            assert(entries@[j] == before[j - 1]);
                        }
                    }
                    assert(r@->Object_0 =~= ks.insert(p as int, key@));
                    assert(r@->Object_1 =~= vs.insert(p as int, value_view));
                    assert(r@ == JsonV::Object(ks.insert(p as int, key@), vs.insert(p as int, value_view)));
                }
                r
            },
            other => other,
        }
    }
}

// ---- Parsing ------------------------------------------------------------------

/// The value `serde_json::from_str::<serde_json::Value>` parses from `text`,
/// or `None` where it reports an error.
pub uninterp spec fn json_parse(text: Seq<char>) -> Option<JsonV>;

/// The outermost level of a parsed JSON value: the value of a scalar, or
/// which kind of container it is.
pub enum ParsedTop {
    Null,
    Bool(bool),
    /// A number, held as the text its `Display` gives.
    Number(String),
    Str(String),
    Array,
    Object,
}

/// The mathematical value of a [`ParsedTop`].
pub enum ParsedTopV {
    Null,
    Bool(bool),
    Number(Seq<char>),
    Str(Seq<char>),
    Array,
    Object,
}

impl View for ParsedTop {
    type V = ParsedTopV;

    open spec fn view(&self) -> ParsedTopV {
        match self {
            ParsedTop::Null => ParsedTopV::Null,
            ParsedTop::Bool(b) => ParsedTopV::Bool(*b),
            ParsedTop::Number(n) => ParsedTopV::Number(n@),
            ParsedTop::Str(t) => ParsedTopV::Str(t@),
            ParsedTop::Array => ParsedTopV::Array,
            ParsedTop::Object => ParsedTopV::Object,
        }
    }
}

/// The outermost level of a parse result.
pub open spec fn top_of(v: Option<JsonV>) -> Option<ParsedTopV> {
    match v {
        Some(JsonV::Null) => Some(ParsedTopV::Null),
        Some(JsonV::Bool(b)) => Some(ParsedTopV::Bool(b)),
        Some(JsonV::Number(n)) => Some(ParsedTopV::Number(n)),
        Some(JsonV::Str(t)) => Some(ParsedTopV::Str(t)),
        Some(JsonV::Array(_)) => Some(ParsedTopV::Array),
        Some(JsonV::Object(_, _)) => Some(ParsedTopV::Object),
        None => None,
    }
}

/// The view of an optional parse result.
pub open spec fn opt_top(o: Option<ParsedTop>) -> Option<ParsedTopV> {
    match o {
        Some(t) => Some(t@),
        None => None,
    }
}

/// Parses `text` with `serde_json::from_str::<serde_json::Value>` and gives
/// the outermost level of the result, `None` where it reports an error. What
/// the parse yields is named, not stated: the JSON grammar is serde_json's.
/// Inside arrays and objects nothing is kept.
#[verifier::external_body]
pub(crate) fn parse_json_top(text: &str) -> (r: Option<ParsedTop>)
    ensures
        opt_top(r) == top_of(json_parse(text@)),
{
    match serde_json::from_str::<serde_json::Value>(text) {
        Ok(serde_json::Value::Null) => Some(ParsedTop::Null),
        Ok(serde_json::Value::Bool(b)) => Some(ParsedTop::Bool(b)),
        Ok(serde_json::Value::Number(n)) => Some(ParsedTop::Number(n.to_string())),
        Ok(serde_json::Value::String(t)) => Some(ParsedTop::Str(t)),
        Ok(serde_json::Value::Array(_)) => Some(ParsedTop::Array),
        Ok(serde_json::Value::Object(_)) => Some(ParsedTop::Object),
        Err(_) => None,
    }
}

} // verus!
