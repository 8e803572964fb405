//! The file header: its preamble and the literal grammar of its text
//! (integers, booleans, quoted strings, lists and maps, as in a Python dict
//! literal).
use vstd::prelude::*;
use vstd::string::*;
use vstd::utf8::*;

verus! {

broadcast use vstd::std_specs::vec::group_vec_axioms;

/// A value of the header grammar.
#[derive(Debug, PartialEq, Eq)]
pub enum Value {
    /// A quoted string, without its quotes.
    String(String),
    /// A non-negative decimal integer.
    Integer(i64),
    /// `True` or `False`.
    Bool(bool),
    /// A list or tuple.
    List(Vec<Value>),
    /// Entries in the order they appear; a key given twice keeps its last value.
    Dict(Vec<(String, Value)>),
}

/// What a [`Value`] denotes.
pub enum ValueModel {
    Text(Seq<char>),
    Integer(i64),
    Bool(bool),
    List(Seq<ValueModel>),
    Dict(Seq<(Seq<char>, ValueModel)>),
}

impl Value {
    pub open spec fn model(&self) -> ValueModel
        decreases self,
    {
        match self {
            Value::String(s) => ValueModel::Text(s@),
            Value::Integer(n) => ValueModel::Integer(*n),
            Value::Bool(b) => ValueModel::Bool(*b),
            Value::List(items) => ValueModel::List(
                Seq::new(
                    items@.len(),
                    |i: int|
                        if 0 <= i < items@.len() {
                            items@[i].model()
                        } else {
                            ValueModel::Bool(false)
                        },
                ),
            ),
            Value::Dict(entries) => ValueModel::Dict(
                Seq::new(
                    entries@.len(),
                    |i: int|
                        if 0 <= i < entries@.len() {
                            (entries@[i].0@, entries@[i].1.model())
                        } else {
                            (Seq::empty(), ValueModel::Bool(false))
                        },
                ),
            ),
        }
    }
}

pub open spec fn models(items: Seq<Value>) -> Seq<ValueModel> {
    Seq::new(items.len(), |i: int| items[i].model())
}

pub open spec fn entry_models(entries: Seq<(String, Value)>) -> Seq<(Seq<char>, ValueModel)> {
    Seq::new(entries.len(), |i: int| (entries[i].0@, entries[i].1.model()))
}

pub proof fn lemma_list_model(items: Vec<Value>)
    ensures
        Value::List(items).model() == ValueModel::List(models(items@)),
{
    assert(models(items@) =~= match Value::List(items).model() {
        ValueModel::List(m) => m,
        _ => Seq::empty(),
    });
}

pub proof fn lemma_map_model(entries: Vec<(String, Value)>)
    ensures
        Value::Dict(entries).model() == ValueModel::Dict(entry_models(entries@)),
{
    assert(entry_models(entries@) =~= match Value::Dict(entries).model() {
        ValueModel::Dict(m) => m,
        _ => Seq::empty(),
    });
}

pub open spec fn is_space(b: u8) -> bool {
    b == 0x20 || b == 0x09 || b == 0x0d || b == 0x0a
}

pub open spec fn is_digit_byte(b: u8) -> bool {
    0x30 <= b <= 0x39
}

/// The first position at or after `i` that is not whitespace.
pub open spec fn skip_ws(s: Seq<u8>, i: int) -> int
    decreases s.len() - i,
{
    if 0 <= i < s.len() && is_space(s[i]) {
        skip_ws(s, i + 1)
    } else {
        i
    }
}

/// The length of the run of digit bytes at `i`.
pub open spec fn digits_at(s: Seq<u8>, i: int) -> nat
    decreases s.len() - i,
{
    if 0 <= i < s.len() && is_digit_byte(s[i]) {
        1 + digits_at(s, i + 1)
    } else {
        0
    }
}

/// The number that the digit bytes `d` denote.
pub open spec fn byte_decimal(d: Seq<u8>) -> nat
    decreases d.len(),
{
    if d.len() == 0 {
        0
    } else {
        byte_decimal(d.drop_last()) * 10 + (d.last() - 0x30) as nat
    }
}

/// The position of the first byte equal to `q` at or after `i`, if any.
pub open spec fn find_byte(s: Seq<u8>, i: int, q: u8) -> Option<int>
    decreases s.len() - i,
{
    if i < 0 || i >= s.len() {
        None
    } else if s[i] == q {
        Some(i)
    } else {
        find_byte(s, i + 1, q)
    }
}

/// A quoted string starting at `i` (which holds the quote): its text and the
/// position after it and the whitespace that follows.
pub open spec fn string_spec(s: Seq<u8>, i: int) -> Option<(Seq<char>, int)> {
    if 0 <= i < s.len() && (s[i] == 0x22 || s[i] == 0x27) {
        match find_byte(s, i + 1, s[i]) {
            Some(k) => {
                let payload = s.subrange(i + 1, k);
                if k > i + 1 && valid_utf8(payload) {
                    Some((decode_utf8(payload), skip_ws(s, k + 1)))
                } else {
                    None
                }
            },
            None => None,
        }
    } else {
        None
    }
}

pub open spec fn matches_at(s: Seq<u8>, i: int, word: Seq<u8>) -> bool {
    0 <= i && i + word.len() <= s.len() && s.subrange(i, i + word.len()) == word
}

/// `True` as bytes.
pub open spec fn true_word() -> Seq<u8> {
    seq![0x54u8, 0x72, 0x75, 0x65]
}

/// `False` as bytes.
pub open spec fn false_word() -> Seq<u8> {
    seq![0x46u8, 0x61, 0x6c, 0x73, 0x65]
}

pub open spec fn closing(open: u8) -> u8 {
    if open == 0x5b {
        0x5d
    } else {
        0x29
    }
}

/// One item starting at `i` (whitespace first is skipped): the value and the
/// position after it and the whitespace that follows.
pub open spec fn item_spec(s: Seq<u8>, i: int) -> Option<(ValueModel, int)>
    decreases s.len() - i, 0nat,
{
    let p = skip_ws(s, i);
    if i < 0 || p < i || p >= s.len() {
        None
    } else if is_digit_byte(s[p]) {
        let n = digits_at(s, p);
        let v = byte_decimal(s.subrange(p, p + n));
        if v <= i64::MAX {
            Some((ValueModel::Integer(v as i64), skip_ws(s, p + n)))
        } else {
            None
        }
    } else if matches_at(s, p, true_word()) {
        Some((ValueModel::Bool(true), skip_ws(s, p + 4)))
    } else if matches_at(s, p, false_word()) {
        Some((ValueModel::Bool(false), skip_ws(s, p + 5)))
    } else if s[p] == 0x22 || s[p] == 0x27 {
        match string_spec(s, p) {
            Some((t, j)) => Some((ValueModel::Text(t), j)),
            None => None,
        }
    } else if s[p] == 0x5b || s[p] == 0x28 {
        match list_tail_spec(s, p + 1, closing(s[p]), 0, Seq::empty()) {
            Some((items, j)) => Some((ValueModel::List(items), j)),
            None => None,
        }
    } else if s[p] == 0x7b {
        match map_tail_spec(s, p + 1, 0, Seq::empty()) {
            Some((entries, j)) => Some((ValueModel::Dict(entries), j)),
            None => None,
        }
    } else {
        None
    }
}

/// The rest of a list after its opening bracket. `state` is 0 before the
/// first item, 1 after an item, 2 after a comma that follows an item.
pub open spec fn list_tail_spec(s: Seq<u8>, i: int, close: u8, state: int, acc: Seq<ValueModel>) ->
    Option<(Seq<ValueModel>, int)>
    decreases s.len() - i, 1nat,
{
    let p = skip_ws(s, i);
    if i < 0 || p < i || p >= s.len() {
        None
    } else if s[p] == close {
        Some((acc, skip_ws(s, p + 1)))
    } else if s[p] == 0x2c && state != 2 {
        if state == 0 {
            let q = skip_ws(s, p + 1);
            if p < q < s.len() && s[q] == close {
                Some((acc, skip_ws(s, q + 1)))
            } else {
                None
            }
        } else {
            list_tail_spec(s, p + 1, close, 2, acc)
        }
    } else if state == 1 {
        None
    } else {
        match item_spec(s, p) {
            Some((v, j)) => if p < j <= s.len() {
                list_tail_spec(s, j, close, 1, acc.push(v))
            } else {
                None
            },
            None => None,
        }
    }
}

/// The rest of a map after its opening brace; `state` as for lists.
pub open spec fn map_tail_spec(
    s: Seq<u8>,
    i: int,
    state: int,
    acc: Seq<(Seq<char>, ValueModel)>,
) -> Option<(Seq<(Seq<char>, ValueModel)>, int)>
    decreases s.len() - i, 1nat,
{
    let p = skip_ws(s, i);
    if i < 0 || p < i || p >= s.len() {
        None
    } else if s[p] == 0x7d {
        Some((acc, skip_ws(s, p + 1)))
    } else if s[p] == 0x2c && state != 2 {
        if state == 0 {
            let q = skip_ws(s, p + 1);
            if p < q < s.len() && s[q] == 0x7d {
                Some((acc, skip_ws(s, q + 1)))
            } else {
                None
            }
        } else {
            map_tail_spec(s, p + 1, 2, acc)
        }
    } else if state == 1 {
        None
    } else {
        match string_spec(s, p) {
            Some((key, k)) => if p < k < s.len() && s[k] == 0x3a {
                match item_spec(s, k + 1) {
                    Some((v, j)) => if p < j <= s.len() {
                        map_tail_spec(s, j, 1, acc.push((key, v)))
                    } else {
                        None
                    },
                    None => None,
                }
            } else {
                None
            },
            None => None,
        }
    }
}


#[verifier::external_type_specification]
#[verifier::external_body]
pub struct ExUtf8Error(core::str::Utf8Error);

/// Relies on `core::str::from_utf8`: it succeeds exactly on valid UTF-8, and
/// the string it returns has the given bytes.
pub assume_specification[ core::str::from_utf8 ](v: &[u8]) -> (r: Result<&str, core::str::Utf8Error>)
    ensures
        r is Ok <==> valid_utf8(v@),
        r matches Ok(s) ==> s.spec_bytes() == v@,
;

pub proof fn lemma_skip_ws_bounds(s: Seq<u8>, i: int)
    requires
        0 <= i <= s.len(),
    ensures
        i <= skip_ws(s, i) <= s.len(),
    decreases s.len() - i,
{
    if i < s.len() && is_space(s[i]) {
        lemma_skip_ws_bounds(s, i + 1);
    }
}

fn skip_spaces(s: &[u8], i: usize) -> (j: usize)
    requires
        i <= s@.len(),
    ensures
        j == skip_ws(s@, i as int),
        i <= j <= s@.len(),
{
    let mut k = i;
    while k < s.len() && (s[k] == 0x20 || s[k] == 0x09 || s[k] == 0x0d || s[k] == 0x0a)
        invariant
            i <= k <= s@.len(),
            skip_ws(s@, k as int) == skip_ws(s@, i as int),
        decreases s@.len() - k,
    {
        k = k + 1;
    }
    k
}

pub proof fn lemma_byte_decimal_step(s: Seq<u8>, a: int, k: int)
    requires
        0 <= a <= k < s.len(),
    ensures
        byte_decimal(s.subrange(a, k + 1)) == byte_decimal(s.subrange(a, k)) * 10 + (s[k] - 0x30) as nat,
{
    assert(s.subrange(a, k + 1).drop_last() =~= s.subrange(a, k));
}

pub proof fn lemma_byte_decimal_prefix_le(d: Seq<u8>, i: int)
    requires
        0 <= i <= d.len(),
    ensures
        byte_decimal(d.subrange(0, i)) <= byte_decimal(d),
    decreases d.len(),
{
    if i < d.len() {
        lemma_byte_decimal_prefix_le(d.drop_last(), i);
        assert(d.drop_last().subrange(0, i) =~= d.subrange(0, i));
    } else {
        assert(d.subrange(0, i) =~= d);
    }
}

pub proof fn lemma_digits_at(s: Seq<u8>, p: int, k: int)
    requires
        0 <= p <= k <= s.len(),
        forall|j: int| p <= j < k ==> is_digit_byte(#[trigger] s[j]),
    ensures
        p + digits_at(s, p) >= k,
        p + digits_at(s, p) <= s.len(),
        forall|j: int| p <= j < p + digits_at(s, p) ==> is_digit_byte(#[trigger] s[j]),
        k == s.len() || !is_digit_byte(s[k]) ==> digits_at(s, p) == k - p,
    decreases s.len() - p,
{
    if p < s.len() && is_digit_byte(s[p]) {
        lemma_digits_at(s, p + 1, if k > p { k } else { p + 1 });
    }
}

fn bool_word_at(s: &[u8], p: usize) -> (r: u8)
    requires
        p < s@.len(),
    ensures
        r == 1 <==> matches_at(s@, p as int, true_word()),
        r == 2 <==> !matches_at(s@, p as int, true_word()) && matches_at(
            s@,
            p as int,
            false_word(),
        ),
        r <= 2,
{
    let n = s.len();
    if 4 <= n - p && s[p] == 0x54 && s[p + 1] == 0x72 && s[p + 2] == 0x75 && s[p + 3] == 0x65 {
        assert(s@.subrange(p as int, p + 4) =~= true_word());
        return 1;
    }
    proof {
        if matches_at(s@, p as int, true_word()) {
            let w = s@.subrange(p as int, p + 4);
            assert(w[0] == s@[p as int] && w[1] == s@[p + 1] && w[2] == s@[p + 2] && w[3] == s@[p
                + 3]);
        }
    }
    if 5 <= n - p && s[p] == 0x46 && s[p + 1] == 0x61 && s[p + 2] == 0x6c && s[p + 3] == 0x73
        && s[p + 4] == 0x65 {
        assert(s@.subrange(p as int, p + 5) =~= false_word());
        return 2;
    }
    proof {
        if matches_at(s@, p as int, false_word()) {
            let w = s@.subrange(p as int, p + 5);
            assert(w[0] == s@[p as int] && w[1] == s@[p + 1] && w[2] == s@[p + 2] && w[3] == s@[p
                + 3] && w[4] == s@[p + 4]);
        }
    }
    0
}

fn integer_at(s: &[u8], p: usize) -> (r: Option<(i64, usize)>)
    requires
        p < s@.len(),
        is_digit_byte(s@[p as int]),
    ensures
        ({
            let n = digits_at(s@, p as int);
            let v = byte_decimal(s@.subrange(p as int, p + n));
            match r {
                Some((x, k)) => v <= i64::MAX && x == v && k == p + n && k <= s@.len(),
                None => v > i64::MAX,
            }
        }),
{
    let mut k = p;
    let mut v: i64 = 0;
    while k < s.len() && 0x30 <= s[k] && s[k] <= 0x39
        invariant
            p <= k <= s@.len(),
            forall|j: int| p <= j < k ==> is_digit_byte(#[trigger] s@[j]),
            v == byte_decimal(s@.subrange(p as int, k as int)),
        decreases s@.len() - k,
    {
        let d = (s[k] - 0x30) as i64;
        proof {
            lemma_byte_decimal_step(s@, p as int, k as int);
        }
        if v > (i64::MAX - d) / 10 {
            proof {
                assert(v * 10 + d > i64::MAX) by (nonlinear_arith)
                    requires
                        v > (i64::MAX - d) / 10,
                        0 <= d <= 9,
                ;
                lemma_digits_at(s@, p as int, k + 1);
                let m = digits_at(s@, p as int) as int;
                let all = s@.subrange(p as int, p + m);
                lemma_byte_decimal_prefix_le(all, k + 1 - p);
                assert(all.subrange(0, k + 1 - p) =~= s@.subrange(p as int, k + 1));
            }
            return None;
        }
        proof {
            assert(v * 10 + d <= i64::MAX) by (nonlinear_arith)
                requires
                    v <= (i64::MAX - d) / 10,
                    0 <= d <= 9,
                    v >= 0,
            ;
        }
        v = v * 10 + d;
        k = k + 1;
    }
    proof {
        lemma_digits_at(s@, p as int, k as int);
    }
    Some((v, k))
}

fn string_at(s: &[u8], p: usize) -> (r: Option<(String, usize)>)
    requires
        p < s@.len(),
    ensures
        match r {
            Some((t, j)) => string_spec(s@, p as int) == Some((t@, j as int)) && p < j <= s@.len(),
            None => string_spec(s@, p as int) is None,
        },
{
    let q = s[p];
    if q != 0x22 && q != 0x27 {
        return None;
    }
    let mut k = p + 1;
    while k < s.len() && s[k] != q
        invariant
            p + 1 <= k <= s@.len(),
            q == s@[p as int],
            find_byte(s@, k as int, q) == find_byte(s@, p + 1, q),
        decreases s@.len() - k,
    {
        k = k + 1;
    }
    if k == s.len() || k == p + 1 {
        return None;
    }
    let payload = &s[p + 1..k];
    match core::str::from_utf8(payload) {
        Err(_) => None,
        Ok(st) => {
            let text = String::from_str(st);
            proof {
                encode_utf8_decode_utf8(st@);
            }
            let j = skip_spaces(s, k + 1);
            Some((text, j))
        },
    }
}

fn item_from(s: &[u8], i: usize) -> (r: Option<(Value, usize)>)
    requires
        i <= s@.len(),
    ensures
        match r {
            Some((v, j)) => item_spec(s@, i as int) == Some((v.model(), j as int)) && i < j
                <= s@.len(),
            None => item_spec(s@, i as int) is None,
        },
    decreases s@.len() - i, 0nat,
{
    let p = skip_spaces(s, i);
    if p >= s.len() {
        return None;
    }
    let c = s[p];
    if 0x30 <= c && c <= 0x39 {
        match integer_at(s, p) {
            None => None,
            Some((v, k)) => {
                let j = skip_spaces(s, k);
                Some((Value::Integer(v), j))
            },
        }
    } else {
        let w = bool_word_at(s, p);
        if w == 1 {
            let j = skip_spaces(s, p + 4);
            Some((Value::Bool(true), j))
        } else if w == 2 {
            let j = skip_spaces(s, p + 5);
            Some((Value::Bool(false), j))
        } else if c == 0x22 || c == 0x27 {
            match string_at(s, p) {
                None => None,
                Some((t, j)) => Some((Value::String(t), j)),
            }
        } else if c == 0x5b || c == 0x28 {
            let close = if c == 0x5b {
                0x5d
            } else {
                0x29
            };
            match list_tail(s, p + 1, close) {
                None => None,
                Some((items, j)) => {
                    proof {
                        lemma_list_model(items);
                    }
                    Some((Value::List(items), j))
                },
            }
        } else if c == 0x7b {
            match map_tail(s, p + 1) {
                None => None,
                Some((entries, j)) => {
                    proof {
                        lemma_map_model(entries);
                    }
                    Some((Value::Dict(entries), j))
                },
            }
        } else {
            None
        }
    }
}

fn list_tail(s: &[u8], i: usize, close: u8) -> (r: Option<(Vec<Value>, usize)>)
    requires
        i <= s@.len(),
    ensures
        match r {
            Some((items, j)) => list_tail_spec(s@, i as int, close, 0, Seq::empty()) == Some(
                (models(items@), j as int),
            ) && i < j <= s@.len(),
            None => list_tail_spec(s@, i as int, close, 0, Seq::empty()) is None,
        },
    decreases s@.len() - i, 1nat,
{
    let mut items: Vec<Value> = Vec::new();
    let mut k = i;
    let mut state: u8 = 0;
    proof {
        assert(models(items@) =~= Seq::<ValueModel>::empty());
    }
    loop
        invariant
            i <= k <= s@.len(),
            state <= 2,
            list_tail_spec(s@, k as int, close, state as int, models(items@)) == list_tail_spec(
                s@,
                i as int,
                close,
                0,
                Seq::empty(),
            ),
        decreases s@.len() - k,
    {
        let p = skip_spaces(s, k);
        if p >= s.len() {
            return None;
        }
        if s[p] == close {
            let j = skip_spaces(s, p + 1);
            return Some((items, j));
        } else if s[p] == 0x2c && state != 2 {
            if state == 0 {
                let q = skip_spaces(s, p + 1);
                if q < s.len() && s[q] == close {
                    let j = skip_spaces(s, q + 1);
                    return Some((items, j));
                }
                return None;
            }
            state = 2;
            k = p + 1;
        } else if state == 1 {
            return None;
        } else {
            match item_from(s, p) {
                None => return None,
                Some((v, j)) => {
                    proof {
                        assert(models(items@.push(v)) =~= models(items@).push(v.model()));
                    }
                    items.push(v);
                    state = 1;
                    k = j;
                },
            }
        }
    }
}

fn map_tail(s: &[u8], i: usize) -> (r: Option<(Vec<(String, Value)>, usize)>)
    requires
        i <= s@.len(),
    ensures
        match r {
            Some((entries, j)) => map_tail_spec(s@, i as int, 0, Seq::empty()) == Some(
                (entry_models(entries@), j as int),
            ) && i < j <= s@.len(),
            None => map_tail_spec(s@, i as int, 0, Seq::empty()) is None,
        },
    decreases s@.len() - i, 1nat,
{
    let mut entries: Vec<(String, Value)> = Vec::new();
    let mut k = i;
    let mut state: u8 = 0;
    proof {
        assert(entry_models(entries@) =~= Seq::<(Seq<char>, ValueModel)>::empty());
    }
    loop
        invariant
            i <= k <= s@.len(),
            state <= 2,
            map_tail_spec(s@, k as int, state as int, entry_models(entries@)) == map_tail_spec(
                s@,
                i as int,
                0,
                Seq::empty(),
            ),
        decreases s@.len() - k,
    {
        let p = skip_spaces(s, k);
        if p >= s.len() {
            return None;
        }
        if s[p] == 0x7d {
            let j = skip_spaces(s, p + 1);
            return Some((entries, j));
        } else if s[p] == 0x2c && state != 2 {
            if state == 0 {
                let q = skip_spaces(s, p + 1);
                if q < s.len() && s[q] == 0x7d {
                    let j = skip_spaces(s, q + 1);
                    return Some((entries, j));
                }
                return None;
            }
            state = 2;
            k = p + 1;
        } else if state == 1 {
            return None;
        } else {
            match string_at(s, p) {
                None => return None,
                Some((key, kk)) => {
                    if kk >= s.len() || s[kk] != 0x3a {
                        return None;
                    }
                    match item_from(s, kk + 1) {
                        None => return None,
                        Some((v, j)) => {
                            proof {
                                assert(entry_models(entries@.push((key, v))) =~= entry_models(
                                    entries@,
                                ).push((key@, v.model())));
                            }
                            entries.push((key, v));
                            state = 1;
                            k = j;
                        },
                    }
                },
            }
        }
    }
}

/// Parses one item of the header grammar at the start of `bytes`.
/// Returns the value and the number of bytes it and the whitespace after it
/// took, or `None` where the bytes do not start with an item.
pub fn parse_item(bytes: &[u8]) -> (r: Option<(Value, usize)>)
    ensures
        match r {
            Some((v, n)) => item_spec(bytes@, 0) == Some((v.model(), n as int)),
            None => item_spec(bytes@, 0) is None,
        },
{
    item_from(bytes, 0)
}


/// Why a file header could not be read.
#[derive(Debug, Copy, Clone, PartialEq, Eq, Structural)]
pub enum HeaderError {
    /// The bytes do not start with the NPY magic and version 1.0.
    BadPreamble,
    /// The bytes end before the header does.
    Truncated,
    /// The header text is not an item of the grammar.
    Malformed,
}

/// The preamble: `0x93`, `NUMPY`, major version 1, minor version 0.
pub open spec fn magic() -> Seq<u8> {
    seq![0x93u8, 0x4e, 0x55, 0x4d, 0x50, 0x59, 0x01, 0x00]
}

/// What a file header holds: the header value and where the data starts.
pub open spec fn header_spec(b: Seq<u8>) -> Result<(ValueModel, int), HeaderError> {
    if exists|j: int| 0 <= j < 8 && j < b.len() && b[j] != magic()[j] {
        Err(HeaderError::BadPreamble)
    } else if b.len() < 10 {
        Err(HeaderError::Truncated)
    } else {
        let len = b[8] + 256 * b[9];
        if b.len() < 10 + len {
            Err(HeaderError::Truncated)
        } else {
            match item_spec(b.subrange(10, 10 + len), 0) {
                Some((v, _)) => Ok((v, 10 + len)),
                None => Err(HeaderError::Malformed),
            }
        }
    }
}

fn magic_byte(j: usize) -> (r: u8)
    requires
        j < 8,
    ensures
        r == magic()[j as int],
{
    if j == 0 {
        0x93
    } else if j == 1 {
        0x4e
    } else if j == 2 {
        0x55
    } else if j == 3 {
        0x4d
    } else if j == 4 {
        0x50
    } else if j == 5 {
        0x59
    } else if j == 6 {
        0x01
    } else {
        0x00
    }
}

/// Reads the preamble and header of an NPY file: the header value, and the
/// bytes that follow the header.
pub fn parse_header(bs: &[u8]) -> (r: Result<(Value, &[u8]), HeaderError>)
    ensures
        match (r, header_spec(bs@)) {
            (Ok((v, rest)), Ok((m, start))) => v.model() == m && rest@ == bs@.subrange(
                start,
                bs@.len() as int,
            ),
            (Err(e), Err(f)) => e == f,
            _ => false,
        },
{
    let mut j: usize = 0;
    while j < 8 && j < bs.len()
        invariant
            j <= 8,
            j <= bs@.len(),
            forall|k: int| 0 <= k < j ==> bs@[k] == magic()[k],
        decreases 8 - j,
    {
        if bs[j] != magic_byte(j) {
            return Err(HeaderError::BadPreamble);
        }
        j = j + 1;
    }
    if bs.len() < 10 {
        return Err(HeaderError::Truncated);
    }
    let len = bs[8] as usize + 256 * bs[9] as usize;
    if bs.len() - 10 < len {
        return Err(HeaderError::Truncated);
    }
    let text = &bs[10..10 + len];
    match item_from(text, 0) {
        None => Err(HeaderError::Malformed),
        Some((v, _)) => Ok((v, &bs[10 + len..bs.len()])),
    }
}

} // verus!
