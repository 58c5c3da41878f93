use vstd::prelude::*;
use crate::text::same_text;

verus! {

/// A JSON number, kept as the text in which it is written; that text
/// always follows the JSON number grammar.
#[derive(Debug, PartialEq, Eq)]
pub struct JsonNumber {
    text: String,
}

/// A JSON value as it travels inside a Phoenix frame.
///
/// An object is a list of entries read as a map: when a key occurs more
/// than once, the last entry holds its value, as in a `serde_json` map.
/// Two values are equal when their models are: the order of an object's
/// entries does not matter.
#[derive(Debug, Eq)]
pub enum Json {
    Null,
    Bool(bool),
    Number(JsonNumber),
    Str(String),
    Array(Vec<Json>),
    Object(Vec<(String, Json)>),
}

/// The mathematical value of a [`Json`].
pub enum JsonModel {
    Null,
    Bool(bool),
    Number(Seq<char>),
    Str(Seq<char>),
    Array(Seq<JsonModel>),
    Object(Map<Seq<char>, JsonModel>),
}

/// Whether a character is a decimal digit.
pub open spec fn is_digit(c: char) -> bool {
    '0' <= c && c <= '9'
}

/// The number of consecutive digits in `t` from position `k`.
pub open spec fn digit_run(t: Seq<char>, k: int) -> nat
    decreases t.len() - k,
{
    if 0 <= k < t.len() && is_digit(t[k]) {
        1 + digit_run(t, k + 1)
    } else {
        0
    }
}

/// Where the integer part of a number text ends.
pub open spec fn int_end(t: Seq<char>) -> int {
    let a: int = if t.len() > 0 && t[0] == '-' { 1 } else { 0 };
    a + digit_run(t, a)
}

/// Where the fraction part (a `.` and its digits) of a number text ends.
pub open spec fn frac_end(t: Seq<char>) -> int {
    let i = int_end(t);
    if i < t.len() && t[i] == '.' {
        i + 1 + digit_run(t, i + 1)
    } else {
        i
    }
}

/// Where the digits of the exponent of a number text start, after the `e`
/// or `E` and its sign.
pub open spec fn exp_digits_start(t: Seq<char>) -> int {
    let f = frac_end(t);
    if f + 1 < t.len() && (t[f + 1] == '+' || t[f + 1] == '-') {
        f + 2
    } else {
        f + 1
    }
}

/// Whether `t` is a JSON number: an optional `-`, an integer part without
/// leading zeros, an optional fraction with at least one digit, an optional
/// exponent with an optional sign and at least one digit, and nothing else.
pub open spec fn is_number_text(t: Seq<char>) -> bool {
    let a: int = if t.len() > 0 && t[0] == '-' { 1 } else { 0 };
    let i = int_end(t);
    let f = frac_end(t);
    let has_frac = i < t.len() && t[i] == '.';
    let has_exp = f < t.len() && (t[f] == 'e' || t[f] == 'E');
    let x = exp_digits_start(t);
    &&& digit_run(t, a) >= 1
    &&& (t[a] != '0' || digit_run(t, a) == 1)
    &&& (has_frac ==> digit_run(t, i + 1) >= 1)
    &&& (has_exp ==> digit_run(t, x) >= 1)
    &&& (if has_exp { x + digit_run(t, x) } else { f }) == t.len()
}

impl JsonNumber {
    #[verifier::type_invariant]
    spec fn well_formed(self) -> bool {
        is_number_text(self.text@)
    }
}

impl View for JsonNumber {
    type V = Seq<char>;

    closed spec fn view(&self) -> Seq<char> {
        self.text@
    }
}

/// The number of consecutive digits in `t` from position `k`; `len` is the
/// number of characters of `t`.
fn count_digits(t: &str, len: usize, k: usize) -> (n: usize)
    requires
        len == t@.len(),
        k <= len,
    ensures
        n == digit_run(t@, k as int),
        k + n <= len,
{
    let mut i = k;
    while i < len && is_digit_char(t.get_char(i))
        invariant
            k <= i <= len,
            len == t@.len(),
            digit_run(t@, k as int) == (i - k) + digit_run(t@, i as int),
        decreases len - i,
    {
        i = i + 1;
    }
    i - k
}

/// Whether a character is a decimal digit.
fn is_digit_char(c: char) -> (r: bool)
    ensures
        r == is_digit(c),
{
    '0' <= c && c <= '9'
}

impl JsonNumber {
    /// The number written as `text`, when `text` is a JSON number.
    pub fn parse(text: &str) -> (r: Option<JsonNumber>)
        ensures
            match r {
                Some(n) => is_number_text(text@) && n@ == text@,
                None => !is_number_text(text@),
            },
    {
        let len = text.unicode_len();
        let ghost t = text@;
        let a: usize = if len > 0 && text.get_char(0) == '-' {
            1
        } else {
            0
        };
        let n_int = count_digits(text, len, a);
        if n_int == 0 || (text.get_char(a) == '0' && n_int != 1) {
            return None;
        }
        let i = a + n_int;
        assert(i == int_end(t));
        let mut f = i;
        if i < len && text.get_char(i) == '.' {
            let n_frac = count_digits(text, len, i + 1);
            if n_frac == 0 {
                return None;
            }
            f = i + 1 + n_frac;
        }
        assert(f == frac_end(t));
        let mut end = f;
        if f < len && (text.get_char(f) == 'e' || text.get_char(f) == 'E') {
            let x = if f + 1 < len && (text.get_char(f + 1) == '+' || text.get_char(f + 1) == '-') {
                f + 2
            } else {
                f + 1
            };
            assert(x == exp_digits_start(t));
            let n_exp = count_digits(text, len, x);
            if n_exp == 0 {
                return None;
            }
            end = x + n_exp;
        }
        if end != len {
            return None;
        }
        Some(JsonNumber { text: String::from_str(text) })
    }

    /// The text of the number.
    pub fn as_str(&self) -> (r: &str)
        ensures
            r@ == self@,
            is_number_text(r@),
    {
        proof {
            use_type_invariant(self);
        }
        self.text.as_str()
    }
}

impl Clone for JsonNumber {
    fn clone(&self) -> (res: Self)
        ensures
            res@ == self@,
    {
        proof {
            use_type_invariant(self);
        }
        JsonNumber { text: self.text.clone() }
    }
}

/// The models of a sequence of values, element by element.
pub open spec fn models(items: Seq<Json>) -> Seq<JsonModel>
    decreases items,
{
    if items.len() == 0 {
        Seq::empty()
    } else {
        seq![items[0].view()] + models(items.drop_first())
    }
}

/// The map that a list of object entries stands for: each key maps to the
/// value of its last entry.
pub open spec fn entry_map(entries: Seq<(String, Json)>) -> Map<Seq<char>, JsonModel>
    decreases entries,
{
    if entries.len() == 0 {
        Map::empty()
    } else {
        entry_map(entries.drop_last()).insert(entries.last().0.view(), entries.last().1.view())
    }
}

impl View for Json {
    type V = JsonModel;

    open spec fn view(&self) -> JsonModel
        decreases self,
    {
        match self {
            Json::Null => JsonModel::Null,
            Json::Bool(b) => JsonModel::Bool(*b),
            Json::Number(n) => JsonModel::Number(n.view()),
            Json::Str(s) => JsonModel::Str(s@),
            Json::Array(items) => JsonModel::Array(models(items@)),
            Json::Object(entries) => JsonModel::Object(entry_map(entries@)),
        }
    }
}


impl JsonModel {
    /// The value stored under `key` in an object: the last entry with that
    /// key. Other values have no fields.
    pub open spec fn field(self, key: Seq<char>) -> Option<JsonModel> {
        match self {
            JsonModel::Object(fields) => if fields.dom().contains(key) {
                Some(fields[key])
            } else {
                None
            },
            _ => None,
        }
    }

    /// The text of a string value.
    pub open spec fn text(self) -> Option<Seq<char>> {
        match self {
            JsonModel::Str(s) => Some(s),
            _ => None,
        }
    }

    /// The text stored under `key`, where it is a string.
    pub open spec fn text_field(self, key: Seq<char>) -> Option<Seq<char>> {
        match self.field(key) {
            Some(v) => v.text(),
            None => None,
        }
    }
}

/// `models` keeps the length and maps each element to its model.
pub proof fn lemma_models(items: Seq<Json>)
    ensures
        models(items).len() == items.len(),
        forall|i: int| 0 <= i < items.len() ==> #[trigger] models(items)[i] == items[i]@,
    decreases items.len(),
{
    if items.len() > 0 {
        assert(models(items) == seq![items[0]@] + models(items.drop_first()));
        lemma_models(items.drop_first());
        assert forall|i: int| 0 <= i < items.len() implies #[trigger] models(items)[i] == items[i]@ by {
            if i > 0 {
                assert(items.drop_first()[i - 1] == items[i]);
            }
        }
    }
}

/// An entry's key is in the map, with the value of the last entry that has
/// it; a key that no entry has is not.
pub proof fn lemma_entry_map_lookup(entries: Seq<(String, Json)>, key: Seq<char>, k: int)
    requires
        -1 <= k < entries.len(),
        k >= 0 ==> entries[k].0@ == key,
        forall|j: int| k < j < entries.len() ==> (#[trigger] entries[j]).0@ != key,
    ensures
        k >= 0 ==> entry_map(entries).dom().contains(key) && entry_map(entries)[key]
            == entries[k].1@,
        k < 0 ==> !entry_map(entries).dom().contains(key),
    decreases entries.len(),
{
    if entries.len() > 0 {
        let rest = entries.drop_last();
        let last = entries[entries.len() - 1];
        assert(entries.last() == last);
        assert(entry_map(entries) == entry_map(rest).insert(last.0@, last.1@));
        if k == entries.len() - 1 {
        } else {
            assert(last.0@ != key);
            assert forall|j: int| k < j < rest.len() implies (#[trigger] rest[j]).0@ != key by {
                assert(rest[j] == entries[j]);
            }
            if k >= 0 {
                assert(rest[k] == entries[k]);
            }
            lemma_entry_map_lookup(rest, key, k);
        }
    }
}

/// Two sequences of values with equal models element by element have
/// equal models.
pub proof fn lemma_models_ext(a: Seq<Json>, b: Seq<Json>)
    requires
        a.len() == b.len(),
        forall|i: int| 0 <= i < a.len() ==> #[trigger] a[i]@ == b[i]@,
    ensures
        models(a) == models(b),
{
    lemma_models(a);
    lemma_models(b);
    assert(models(a) =~= models(b));
}

/// Two lists of entries with equal keys and equal value models, entry by
/// entry, stand for the same map.
pub proof fn lemma_entry_map_ext(a: Seq<(String, Json)>, b: Seq<(String, Json)>)
    requires
        a.len() == b.len(),
        forall|i: int| 0 <= i < a.len() ==> #[trigger] a[i].0@ == b[i].0@ && a[i].1@ == b[i].1@,
    ensures
        entry_map(a) == entry_map(b),
    decreases a.len(),
{
    if a.len() > 0 {
        assert forall|i: int| 0 <= i < a.len() - 1 implies #[trigger] a.drop_last()[i].0@
            == b.drop_last()[i].0@ && a.drop_last()[i].1@ == b.drop_last()[i].1@ by {
            assert(a.drop_last()[i] == a[i]);
            assert(b.drop_last()[i] == b[i]);
        }
        lemma_entry_map_ext(a.drop_last(), b.drop_last());
        assert(a.last() == a[a.len() - 1]);
        assert(b.last() == b[b.len() - 1]);
    }
}

/// Appending an entry maps its key to its value.
pub proof fn lemma_entry_map_push(entries: Seq<(String, Json)>, e: (String, Json))
    ensures
        entry_map(entries.push(e)) == entry_map(entries).insert(e.0@, e.1@),
{
    assert(entries.push(e).drop_last() =~= entries);
}

/// Appending a value appends its model.
pub proof fn lemma_models_push(items: Seq<Json>, v: Json)
    ensures
        models(items.push(v)) == models(items).push(v@),
{
    lemma_models(items);
    lemma_models(items.push(v));
    assert(models(items.push(v)) =~= models(items).push(v@));
}

impl Clone for Json {
    #[verifier::loop_isolation(false)]
    fn clone(&self) -> (res: Self)
        ensures
            res@ == self@,
        decreases self,
    {
        match self {
            Json::Null => Json::Null,
            Json::Bool(b) => Json::Bool(*b),
            Json::Number(n) => Json::Number(n.clone()),
            Json::Str(s) => Json::Str(s.clone()),
            Json::Array(items) => {
                let mut out: Vec<Json> = Vec::new();
                let mut i: usize = 0;
                while i < items.len()
                    invariant
                        i <= items.len(),
                        out@.len() == i,
                        forall|j: int| 0 <= j < i ==> #[trigger] out@[j]@ == items@[j]@,
                    decreases items.len() - i,
                {
                    let c = items[i].clone();
                    out.push(c);
                    i = i + 1;
                }
                proof {
                    lemma_models_ext(out@, items@);
                }
                Json::Array(out)
            },
            Json::Object(entries) => {
                let mut out: Vec<(String, Json)> = Vec::new();
                let mut i: usize = 0;
                while i < entries.len()
                    invariant
                        i <= entries.len(),
                        out@.len() == i,
                        forall|j: int|
                            0 <= j < i ==> #[trigger] out@[j].0@ == entries@[j].0@ && out@[j].1@
                                == entries@[j].1@,
                    decreases entries.len() - i,
                {
                    let entry = &entries[i];
                    let c = entry.1.clone();
                    out.push((entry.0.clone(), c));
                    i = i + 1;
                }
                proof {
                    assert forall|j: int| 0 <= j < out@.len() implies #[trigger] out@[j].0@
                        == entries@[j].0@ && out@[j].1@ == entries@[j].1@ by {}
                    lemma_entry_map_ext(out@, entries@);
                }
                Json::Object(out)
            },
        }
    }
}

impl Json {
    /// The value stored under `key` when this is an object holding it.
    pub fn get(&self, key: &str) -> (r: Option<&Json>)
        ensures
            match r {
                Some(v) => self@.field(key@) == Some(v@),
                None => self@.field(key@) is None,
            },
    {
        match self {
            Json::Object(entries) => match last_index(entries, key) {
                Some(k) => {
                    proof {
                        lemma_entry_map_lookup(entries@, key@, k as int);
                    }
                    Some(&entries[k].1)
                },
                None => {
                    proof {
                        lemma_entry_map_lookup(entries@, key@, -1);
                    }
                    None
                },
            },
            _ => None,
        }
    }

    /// The text of a string value.
    pub fn as_str(&self) -> (r: Option<&str>)
        ensures
            match r {
                Some(s) => self@.text() == Some(s@),
                None => self@.text() is None,
            },
    {
        match self {
            Json::Str(s) => Some(s.as_str()),
            _ => None,
        }
    }
}

/// The position of the last entry with the given key.
fn last_index(entries: &Vec<(String, Json)>, key: &str) -> (r: Option<usize>)
    ensures
        match r {
            Some(k) => k < entries@.len() && entries@[k as int].0@ == key@ && forall|j: int|
                k < j < entries@.len() ==> (#[trigger] entries@[j]).0@ != key@,
            None => forall|j: int| 0 <= j < entries@.len() ==> (#[trigger] entries@[j]).0@ != key@,
        },
{
    let mut i: usize = entries.len();
    while i > 0
        invariant
            i <= entries.len(),
            forall|j: int| i <= j < entries@.len() ==> (#[trigger] entries@[j]).0@ != key@,
        decreases i,
    {
        if same_text(entries[i - 1].0.as_str(), key) {
            return Some(i - 1);
        }
        i = i - 1;
    }
    None
}

/// A key is in the map of a list of entries only when some entry has it.
pub proof fn lemma_entry_map_has_entry(entries: Seq<(String, Json)>, key: Seq<char>)
    requires
        entry_map(entries).dom().contains(key),
    ensures
        exists|i: int| 0 <= i < entries.len() && (#[trigger] entries[i]).0@ == key,
{
    if forall|i: int| 0 <= i < entries.len() ==> (#[trigger] entries[i]).0@ != key {
        lemma_entry_map_lookup(entries, key, -1);
    }
}

/// The key of every entry is in the map.
pub proof fn lemma_entry_map_has_key(entries: Seq<(String, Json)>, i: int)
    requires
        0 <= i < entries.len(),
    ensures
        entry_map(entries).dom().contains(entries[i].0@),
    decreases entries.len(),
{
    let rest = entries.drop_last();
    assert(entries.last() == entries[entries.len() - 1]);
    assert(entry_map(entries) == entry_map(rest).insert(entries.last().0@, entries.last().1@));
    if i < entries.len() - 1 {
        assert(rest[i] == entries[i]);
        lemma_entry_map_has_key(rest, i);
    }
}

/// Whether two values have the same model.
#[verifier::loop_isolation(false)]
fn same_json(a: &Json, b: &Json) -> (r: bool)
    ensures
        r == (a@ == b@),
    decreases a,
{
    match (a, b) {
        (Json::Null, Json::Null) => true,
        (Json::Bool(x), Json::Bool(y)) => *x == *y,
        (Json::Number(x), Json::Number(y)) => same_text(x.as_str(), y.as_str()),
        (Json::Str(x), Json::Str(y)) => same_text(x.as_str(), y.as_str()),
        (Json::Array(xs), Json::Array(ys)) => {
            proof {
                lemma_models(xs@);
                lemma_models(ys@);
            }
            if xs.len() != ys.len() {
                proof {
                    assert(models(xs@).len() != models(ys@).len());
                }
                return false;
            }
            let mut i: usize = 0;
            while i < xs.len()
                invariant
                    i <= xs.len(),
                    xs.len() == ys.len(),
                    forall|j: int| 0 <= j < i ==> #[trigger] xs@[j]@ == ys@[j]@,
                decreases xs.len() - i,
            {
                if !same_json(&xs[i], &ys[i]) {
                    proof {
                        assert(models(xs@)[i as int] != models(ys@)[i as int]);
                    }
                    return false;
                }
                i = i + 1;
            }
            proof {
                lemma_models_ext(xs@, ys@);
            }
            true
        },
        (Json::Object(xs), Json::Object(ys)) => {
            let ghost ma = entry_map(xs@);
            let ghost mb = entry_map(ys@);
            proof {
                assert(a@ == JsonModel::Object(ma));
                assert(b@ == JsonModel::Object(mb));
            }
            let mut i: usize = 0;
            while i < xs.len()
                invariant
                    i <= xs.len(),
                    ma == entry_map(xs@),
                    mb == entry_map(ys@),
                    forall|j: int|
                        0 <= j < i ==> mb.dom().contains((#[trigger] xs@[j]).0@) && ma.dom().contains(
                            xs@[j].0@,
                        ) && ma[xs@[j].0@] == mb[xs@[j].0@],
                decreases xs.len() - i,
            {
                let key = xs[i].0.as_str();
                let ka = match last_index(xs, key) {
                    Some(k) => k,
                    None => {
                        proof {
                            assert(false);
                        }
                        i
                    },
                };
                proof {
                    lemma_entry_map_lookup(xs@, key@, ka as int);
                }
                match last_index(ys, key) {
                    Some(kb) => {
                        proof {
                            lemma_entry_map_lookup(ys@, key@, kb as int);
                        }
                        if !same_json(&xs[ka].1, &ys[kb].1) {
                            return false;
                        }
                    },
                    None => {
                        proof {
                            lemma_entry_map_lookup(ys@, key@, -1);
                        }
                        return false;
                    },
                }
                i = i + 1;
            }
            let mut i: usize = 0;
            while i < ys.len()
                invariant
                    i <= ys.len(),
                    ma == entry_map(xs@),
                    mb == entry_map(ys@),
                    forall|j: int| 0 <= j < i ==> ma.dom().contains((#[trigger] ys@[j]).0@),
                    forall|j: int|
                        0 <= j < xs.len() ==> mb.dom().contains((#[trigger] xs@[j]).0@) && ma.dom().contains(
                            xs@[j].0@,
                        ) && ma[xs@[j].0@] == mb[xs@[j].0@],
                decreases ys.len() - i,
            {
                let key = ys[i].0.as_str();
                match last_index(xs, key) {
                    Some(k) => {
                        proof {
                            lemma_entry_map_lookup(xs@, key@, k as int);
                        }
                    },
                    None => {
                        proof {
                            lemma_entry_map_lookup(xs@, key@, -1);
                            lemma_entry_map_has_key(ys@, i as int);
                        }
                        return false;
                    },
                }
                i = i + 1;
            }
            proof {
                assert forall|k: Seq<char>| #[trigger] ma.dom().contains(k) implies mb.dom().contains(k)
                    && ma[k] == mb[k] by {
                    lemma_entry_map_has_entry(xs@, k);
                    let j = choose|j: int| 0 <= j < xs@.len() && (#[trigger] xs@[j]).0@ == k;
                    assert(mb.dom().contains(xs@[j].0@));
                }
                assert forall|k: Seq<char>| #[trigger] mb.dom().contains(k) implies ma.dom().contains(k) by {
                    lemma_entry_map_has_entry(ys@, k);
                    let j = choose|j: int| 0 <= j < ys@.len() && (#[trigger] ys@[j]).0@ == k;
                    assert(ma.dom().contains(ys@[j].0@));
                }
                assert(ma.dom() =~= mb.dom());
                assert(ma =~= mb);
            }
            true
        },
        _ => false,
    }
}

impl PartialEq for Json {
    fn eq(&self, other: &Self) -> (r: bool) {
        same_json(self, other)
    }
}

impl vstd::std_specs::cmp::PartialEqSpecImpl for Json {
    open spec fn obeys_eq_spec() -> bool {
        true
    }

    open spec fn eq_spec(&self, other: &Json) -> bool {
        self@ == other@
    }
}

} // verus!
