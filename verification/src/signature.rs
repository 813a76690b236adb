//! Request signatures: the SHA-1 signature of a JSON request's fields, and
//! the SHA-1 signature of a webhook body.

use vstd::prelude::*;
use vstd::string::StringExecFns;
use sha1::Digest;

use crate::json::{JsonObject, JsonValue, entries_map, keys_distinct, lemma_entries_map_dom, lemma_entries_map_value};
use crate::text::{hex_digit, hex_lower, key_lt, lemma_key_lt_order, str_eq, str_lt, to_hex_lower, trim_char, trim_end_char, trim_matches_char, trim_start_char};

verus! {

/// The SHA-1 digest of `data`.
pub uninterp spec fn sha1_digest_of(data: Seq<u8>) -> Seq<u8>;

/// How the JSON serializer writes one character inside a string: a quote
/// and a backslash escaped with a backslash, backspace, tab, line feed, form
/// feed and carriage return as `\b \t \n \f \r`, other control characters
/// as `\u00` and two lowercase hexadecimal digits, any other character as it is.
pub open spec fn json_escape(c: char) -> Seq<char> {
    let v = c as u32;
    if c == '"' {
        seq!['\\', '"']
    } else if c == '\\' {
        seq!['\\', '\\']
    } else if v == 8 {
        seq!['\\', 'b']
    } else if v == 9 {
        seq!['\\', 't']
    } else if v == 10 {
        seq!['\\', 'n']
    } else if v == 12 {
        seq!['\\', 'f']
    } else if v == 13 {
        seq!['\\', 'r']
    } else if v < 32 {
        seq!['\\', 'u', '0', '0', hex_digit(v as int / 16), hex_digit(v as int % 16)]
    } else {
        seq![c]
    }
}

/// The characters of `text`, each escaped as the JSON serializer does.
pub open spec fn json_escaped(text: Seq<char>) -> Seq<char>
    decreases text.len(),
{
    if text.len() == 0 {
        Seq::empty()
    } else {
        json_escaped(text.drop_last()) + json_escape(text.last())
    }
}

/// The JSON text that the serializer writes for a string value: the escaped
/// characters between quotes.
pub open spec fn json_string_literal(text: Seq<char>) -> Seq<char> {
    seq!['"'] + json_escaped(text) + seq!['"']
}

/// Calls `<sha1::Sha1 as Digest>::digest`. Trusted: the result is the SHA-1
/// digest of `data`, which is 20 bytes long.
#[verifier::external_body]
fn sha1_digest(data: &[u8]) -> (digest: Vec<u8>)
    ensures
        digest@ == sha1_digest_of(data@),
        digest@.len() == 20,
{
    sha1::Sha1::digest(data).to_vec()
}

/// Calls `Display` of `serde_json::Value::String`. Trusted: the result is the
/// text between quotes with each character escaped by the serializer's table.
#[verifier::external_body]
fn json_quote(text: &str) -> (literal: String)
    ensures
        literal@ == json_string_literal(text@),
{
    serde_json::Value::String(text.to_string()).to_string()
}

/// The lowercase hexadecimal SHA-1 digest of `data`.
pub open spec fn sha1_hex(data: Seq<u8>) -> Seq<char> {
    hex_lower(sha1_digest_of(data))
}

/// Keys in strictly increasing order.
pub open spec fn strictly_sorted(keys: Seq<Seq<char>>) -> bool {
    forall|i: int, j: int| 0 <= i < j < keys.len() ==> key_lt(keys[i], keys[j])
}

/// The keys of `m` in increasing order.
pub open spec fn sorted_keys(m: Map<Seq<char>, JsonValue>) -> Seq<Seq<char>> {
    choose|q: Seq<Seq<char>>| strictly_sorted(q) && q.to_set() == m.dom()
}

/// Two strictly sorted key sequences with the same keys are equal.
pub proof fn lemma_sorted_keys_unique(q1: Seq<Seq<char>>, q2: Seq<Seq<char>>)
    requires
        strictly_sorted(q1),
        strictly_sorted(q2),
        q1.to_set() == q2.to_set(),
    ensures
        q1 == q2,
    decreases q1.len(),
{
    if q1.len() == 0 {
        if q2.len() > 0 {
            assert(q2.to_set().contains(q2[0]));
        }
        assert(q1 =~= q2);
    } else {
        assert(q1.to_set().contains(q1[0]));
        assert(q2.len() > 0) by {
            if q2.len() == 0 {
                assert(!q2.to_set().contains(q1[0]));
            }
        }
        assert(q2.to_set().contains(q2[0]));
        let j = choose|j: int| 0 <= j < q2.len() && q2[j] == q1[0];
        let i = choose|i: int| 0 <= i < q1.len() && q1[i] == q2[0];
        lemma_key_lt_order(q1[0], q2[0], q1[0]);
        if j > 0 {
            assert(key_lt(q2[0], q2[j]));
            if i > 0 {
                assert(key_lt(q1[0], q1[i]));
            }
        }
        assert(q1[0] == q2[0]);
        let r1 = q1.drop_first();
        let r2 = q2.drop_first();
        assert forall|k: Seq<char>| r1.to_set().contains(k) implies r2.to_set().contains(k) by {
            let a = choose|a: int| 0 <= a < r1.len() && r1[a] == k;
            assert(q1.to_set().contains(k));
            let b = choose|b: int| 0 <= b < q2.len() && q2[b] == k;
            lemma_key_lt_order(q1[0], k, k);
            assert(key_lt(q1[0], q1[a + 1]));
            if b == 0 {
                assert(false);
            }
            assert(r2[b - 1] == k);
        }
        assert forall|k: Seq<char>| r2.to_set().contains(k) implies r1.to_set().contains(k) by {
            let a = choose|a: int| 0 <= a < r2.len() && r2[a] == k;
            assert(q2.to_set().contains(k));
            let b = choose|b: int| 0 <= b < q1.len() && q1[b] == k;
            lemma_key_lt_order(q2[0], k, k);
            assert(key_lt(q2[0], q2[a + 1]));
            if b == 0 {
                assert(false);
            }
            assert(r1[b - 1] == k);
        }
        assert(r1.to_set() =~= r2.to_set());
        lemma_sorted_keys_unique(r1, r2);
        assert(q1 =~= seq![q1[0]] + r1);
        assert(q2 =~= seq![q2[0]] + r2);
    }
}

/// The positions of `obj`'s entries, ordered by key.
fn sorted_positions(obj: &JsonObject) -> (order: Vec<usize>)
    ensures
        order@.len() == obj@.len(),
        forall|a: int| 0 <= a < order@.len() ==> order@[a] < obj@.len(),
        forall|k: usize| k < obj@.len() ==> #[trigger] order@.contains(k),
        forall|a: int, b: int|
            0 <= a < b < order@.len() ==> key_lt(obj@[order@[a] as int].0, obj@[order@[b] as int].0),
{
    let n = obj.len();
    let ghost s = obj@;
    let mut order: Vec<usize> = Vec::new();
    let mut i: usize = 0;
    while i < n
        invariant
            i <= n,
            n == s.len(),
            s == obj@,
            keys_distinct(s),
            order@.len() == i,
            forall|a: int| 0 <= a < order@.len() ==> order@[a] < i,
            forall|k: usize| k < i ==> #[trigger] order@.contains(k),
            forall|a: int, b: int|
                0 <= a < b < order@.len() ==> key_lt(s[order@[a] as int].0, s[order@[b] as int].0),
        decreases n - i,
    {
        let key_i = obj.entry(i).0;
        let mut p: usize = 0;
        while p < order.len() && str_lt(obj.entry(order[p]).0.as_str(), key_i.as_str())
            invariant
                p <= order@.len(),
                order@.len() == i,
                i < n,
                n == s.len(),
                s == obj@,
                key_i@ == s[i as int].0,
                forall|a: int| 0 <= a < order@.len() ==> order@[a] < i,
                forall|a: int| 0 <= a < p ==> key_lt(s[order@[a] as int].0, s[i as int].0),
            decreases order@.len() - p,
        {
            p += 1;
        }
        let ghost before = order@;
        proof {
            assert forall|a: int| p <= a < before.len() implies key_lt(
                s[i as int].0,
                s[before[a] as int].0,
            ) by {
                let kp = s[before[p as int] as int].0;
                let ka = s[before[a] as int].0;
                let ki = s[i as int].0;
                assert(before[p as int] != i);
                lemma_key_lt_order(ki, kp, ka);
                lemma_key_lt_order(kp, ki, ka);
            }
        }
        order.insert(p, i);
        proof {
            assert forall|a: int, b: int| 0 <= a < b < order@.len() implies key_lt(
                s[order@[a] as int].0,
                s[order@[b] as int].0,
            ) by {
                if a < p && b == p {
                } else if a < p && b > p {
                    assert(order@[b] == before[b - 1]);
                    lemma_key_lt_order(s[before[a] as int].0, s[i as int].0, s[before[b - 1] as int].0);
                } else if a == p {
                    assert(order@[b] == before[b - 1]);
                } else if a > p {
                    assert(order@[a] == before[a - 1]);
                    assert(order@[b] == before[b - 1]);
                }
            }
            assert forall|k: usize| k < i + 1 implies #[trigger] order@.contains(k) by {
                if k == i {
                    assert(order@[p as int] == k);
                } else {
                    assert(before.contains(k));
                    let a = choose|a: int| 0 <= a < before.len() && before[a] == k;
                    if a < p {
                        assert(order@[a] == k);
                    } else {
                        assert(order@[a + 1] == k);
                    }
                }
            }
        }
        i += 1;
    }
    order
}


/// The keys named in `skip`, as text.
pub open spec fn skip_views(skip: Seq<&str>) -> Seq<Seq<char>> {
    skip.map_values(|k: &str| k@)
}

/// Whether `key` is one of `keys`.
fn contains_key_text(keys: &[&str], key: &str) -> (found: bool)
    ensures
        found == skip_views(keys@).contains(key@),
{
    let mut i: usize = 0;
    while i < keys.len()
        invariant
            i <= keys.len(),
            forall|j: int| 0 <= j < i ==> keys@[j]@ != key@,
        decreases keys.len() - i,
    {
        if str_eq(keys[i], key) {
            assert(skip_views(keys@)[i as int] == key@);
            return true;
        }
        i += 1;
    }
    false
}

/// The text that a field's value contributes to the signed string, after
/// its separator: booleans and numbers as written in JSON, non-empty
/// strings as their JSON literal, both with surrounding quotes removed.
/// Null, empty strings, arrays and objects contribute nothing.
pub open spec fn field_text(v: JsonValue) -> Option<Seq<char>> {
    match v {
        JsonValue::Bool(b) => Some(if b { "true"@ } else { "false"@ }),
        JsonValue::Number(n) => Some(trim_char(n@, '"')),
        JsonValue::String(t) => if t@.len() > 0 {
            Some(trim_char(json_string_literal(t@), '"'))
        } else {
            None
        },
        _ => None,
    }
}

/// The fields of `m` under `keys`, in that order, each written as `|` and its
/// text, leaving out the keys in `skip` and the values without text.
pub open spec fn signed_fields(
    keys: Seq<Seq<char>>,
    m: Map<Seq<char>, JsonValue>,
    skip: Seq<Seq<char>>,
) -> Seq<char>
    decreases keys.len(),
{
    if keys.len() == 0 {
        Seq::empty()
    } else {
        let rest = signed_fields(keys.drop_last(), m, skip);
        let k = keys.last();
        if skip.contains(k) {
            rest
        } else {
            match field_text(m[k]) {
                Some(t) => rest + "|"@ + t,
                None => rest,
            }
        }
    }
}

/// The string that is hashed: the password, then the fields in key order.
pub open spec fn signature_base(
    password: Seq<char>,
    m: Map<Seq<char>, JsonValue>,
    skip: Seq<Seq<char>>,
) -> Seq<char> {
    password + signed_fields(sorted_keys(m), m, skip)
}

/// The signature of a request: the lowercase hexadecimal SHA-1 digest of the
/// UTF-8 bytes of its signature base.
pub open spec fn request_signature(
    password: Seq<char>,
    m: Map<Seq<char>, JsonValue>,
    skip: Seq<Seq<char>>,
) -> Seq<char> {
    sha1_hex(vstd::utf8::encode_utf8(signature_base(password, m, skip)))
}

/// Errors of request signing.
#[derive(Debug)]
pub enum FondyError {
    SignatureCalculateError(String),
}

fn field_text_of(v: &JsonValue) -> (t: Option<String>)
    ensures
        t matches Some(x) ==> field_text(*v) == Some(x@),
        t is None ==> field_text(*v) is None,
{
    match v {
        JsonValue::Bool(b) => {
            if *b {
                Some(String::from_str("true"))
            } else {
                Some(String::from_str("false"))
            }
        },
        JsonValue::Number(n) => Some(trim_matches_char(n.as_str(), '"')),
        JsonValue::String(text) => {
            if text.as_str().is_empty() {
                None
            } else {
                let literal = json_quote(text.as_str());
                Some(trim_matches_char(literal.as_str(), '"'))
            }
        },
        _ => None,
    }
}

/// Signs a JSON request: the password and the object's fields, in
/// increasing key order, joined with `|`, hashed with SHA-1 and written in
/// lowercase hexadecimal. Keys in `skip_keys` are left out. Fails unless the
/// value is an object.
pub fn calculate_signature(password: &str, json_data: &JsonValue, skip_keys: &[&str]) -> (res:
    Result<String, FondyError>)
    ensures
        match json_data {
            JsonValue::Object(obj) => res matches Ok(sig) && sig@ == request_signature(
                password@,
                obj.as_map(),
                skip_views(skip_keys@),
            ) && sig@.len() == 40,
            _ => res matches Err(FondyError::SignatureCalculateError(msg)) && msg@
                == "Json data must be dictionary"@,
        },
{
    let obj = match json_data {
        JsonValue::Object(obj) => obj,
        _ => {
            return Err(
                FondyError::SignatureCalculateError(String::from_str("Json data must be dictionary")),
            );
        },
    };
    let n = obj.len();
    let ghost s = obj@;
    let ghost m = obj.as_map();
    let ghost skip = skip_views(skip_keys@);
    let order = sorted_positions(obj);
    let ghost q = order@.map_values(|x: usize| s[x as int].0);
    let mut joined = String::from_str(password);
    let mut j: usize = 0;
    assert(q.subrange(0, 0) =~= Seq::<Seq<char>>::empty());
    while j < n
        invariant
            j <= n,
            n == s.len(),
            s == obj@,
            m == entries_map(s),
            keys_distinct(s),
            order@.len() == n,
            forall|a: int| 0 <= a < order@.len() ==> order@[a] < n,
            q == order@.map_values(|x: usize| s[x as int].0),
            skip == skip_views(skip_keys@),
            joined@ == password@ + signed_fields(q.subrange(0, j as int), m, skip),
        decreases n - j,
    {
        let idx = order[j];
        let (key, value) = obj.entry(idx);
        proof {
            lemma_entries_map_value(s, idx as int);
            assert(q.subrange(0, j + 1).drop_last() =~= q.subrange(0, j as int));
            assert(q.subrange(0, j + 1).last() == key@);
        }
        if !contains_key_text(skip_keys, key.as_str()) {
            match field_text_of(value) {
                Some(t) => {
                    joined.append("|");
                    joined.append(t.as_str());
                },
                None => {},
            }
        }
        assert(joined@ =~= password@ + signed_fields(q.subrange(0, j + 1), m, skip));
        j += 1;
    }
    proof {
        assert(q.subrange(0, n as int) =~= q);
        assert(strictly_sorted(q));
        lemma_entries_map_dom(s);
        assert forall|k: Seq<char>| q.to_set().contains(k) <==> m.dom().contains(k) by {
            if q.to_set().contains(k) {
                let a = choose|a: int| 0 <= a < q.len() && q[a] == k;
                assert(s[order@[a] as int].0 == k);
            }
            if m.dom().contains(k) {
                let i = choose|i: int| 0 <= i < s.len() && s[i].0 == k;
                assert(order@.contains(i as usize));
                let a = choose|a: int| 0 <= a < order@.len() && order@[a] == i as usize;
                assert(q[a] == k);
            }
        }
        assert(q.to_set() =~= m.dom());
        lemma_sorted_keys_unique(q, sorted_keys(m));
    }
    let digest = sha1_digest(joined.as_str().as_bytes());
    proof {
        crate::text::lemma_hex_lower_len(digest@);
    }
    Ok(to_hex_lower(digest.as_slice()))
}


/// Appends `data` to `out`.
fn extend_bytes(out: &mut Vec<u8>, data: &[u8])
    ensures
        final(out)@ == old(out)@ + data@,
{
    let mut i: usize = 0;
    while i < data.len()
        invariant
            i <= data.len(),
            out@ == old(out)@ + data@.subrange(0, i as int),
        decreases data.len() - i,
    {
        out.push(data[i]);
        assert(data@.subrange(0, i + 1) =~= data@.subrange(0, i as int).push(data@[i as int]));
        i += 1;
    }
    assert(data@.subrange(0, data.len() as int) =~= data@);
}

/// Signs a webhook: the lowercase hexadecimal SHA-1 digest of the request
/// body followed by the project's secret key.
pub fn calculate_body_signature(body: &[u8], secret_key: &[u8]) -> (sig: String)
    ensures
        sig@ == sha1_hex(body@ + secret_key@),
        sig@.len() == 40,
{
    let mut data: Vec<u8> = Vec::new();
    extend_bytes(&mut data, body);
    extend_bytes(&mut data, secret_key);
    assert(data@ =~= body@ + secret_key@);
    let digest = sha1_digest(data.as_slice());
    proof {
        crate::text::lemma_hex_lower_len(digest@);
    }
    to_hex_lower(digest.as_slice())
}


/// Inserting a key that is not yet present into a strictly sorted sequence:
/// the position below which every key is smaller.
pub proof fn lemma_sorted_insert(q: Seq<Seq<char>>, k: Seq<char>) -> (p: int)
    requires
        strictly_sorted(q),
        !q.contains(k),
    ensures
        0 <= p <= q.len(),
        strictly_sorted(q.insert(p, k)),
        forall|j: int| 0 <= j < p ==> key_lt(q[j], k),
        forall|j: int| p <= j < q.len() ==> key_lt(k, q[j]),
    decreases q.len(),
{
    if q.len() == 0 {
        assert(q.insert(0, k) =~= seq![k]);
        0
    } else {
        let n = q.len() - 1;
        let last = q[n];
        assert(last != k);
        lemma_key_lt_order(last, k, last);
        if key_lt(last, k) {
            assert forall|j: int| 0 <= j < q.len() implies key_lt(q[j], k) by {
                if j < n {
                    lemma_key_lt_order(q[j], last, k);
                }
            }
            let r = q.insert(q.len() as int, k);
            assert(r =~= q.push(k));
            assert forall|a: int, b: int| 0 <= a < b < r.len() implies key_lt(r[a], r[b]) by {
                if b < q.len() {
                    assert(r[a] == q[a] && r[b] == q[b]);
                }
            }
            q.len() as int
        } else {
            let init = q.drop_last();
            assert(strictly_sorted(init));
            assert(!init.contains(k)) by {
                if init.contains(k) {
                    let j = choose|j: int| 0 <= j < init.len() && init[j] == k;
                    assert(q[j] == k);
                }
            }
            let p = lemma_sorted_insert(init, k);
            let r0 = init.insert(p, k);
            let r = q.insert(p, k);
            assert(r =~= r0.push(last));
            assert forall|j: int| p <= j < q.len() implies key_lt(k, q[j]) by {
                if j < n {
                    assert(q[j] == init[j]);
                }
            }
            assert forall|j: int| 0 <= j < p implies key_lt(q[j], k) by {
                assert(q[j] == init[j]);
            }
            assert forall|a: int, b: int| 0 <= a < b < r.len() implies key_lt(r[a], r[b]) by {
                if b == r.len() - 1 {
                    if a == p {
                    } else if a < p {
                        assert(r[a] == q[a]);
                    } else {
                        assert(r[a] == q[a - 1]);
                    }
                } else {
                    assert(r[a] == r0[a] && r[b] == r0[b]);
                }
            }
            p
        }
    }
}

/// Every finite set of keys has a strictly sorted sequence of its keys.
pub proof fn lemma_sorted_seq_exists(d: Set<Seq<char>>) -> (q: Seq<Seq<char>>)
    requires
        d.finite(),
    ensures
        strictly_sorted(q),
        q.to_set() == d,
    decreases d.len(),
{
    if d.len() == 0 {
        let q = Seq::<Seq<char>>::empty();
        assert(d =~= Set::empty());
        assert(q.to_set() =~= d);
        q
    } else {
        let x = d.choose();
        let q0 = lemma_sorted_seq_exists(d.remove(x));
        assert(!q0.contains(x)) by {
            if q0.contains(x) {
                assert(q0.to_set().contains(x));
            }
        }
        let p = lemma_sorted_insert(q0, x);
        let q = q0.insert(p, x);
        assert forall|k: Seq<char>| q.to_set().contains(k) <==> d.contains(k) by {
            if q.to_set().contains(k) && k != x {
                let j = choose|j: int| 0 <= j < q.len() && q[j] == k;
                if j < p {
                    assert(q0[j] == k);
                } else {
                    assert(q0[j - 1] == k);
                }
                assert(q0.to_set().contains(k));
            }
            if d.contains(k) {
                if k == x {
                    assert(q[p] == x);
                } else {
                    assert(q0.to_set().contains(k));
                    let j = choose|j: int| 0 <= j < q0.len() && q0[j] == k;
                    if j < p {
                        assert(q[j] == k);
                    } else {
                        assert(q[j + 1] == k);
                    }
                }
            }
        }
        assert(q.to_set() =~= d);
        q
    }
}

/// The keys of a map with finitely many keys, in increasing order.
pub proof fn lemma_sorted_keys(m: Map<Seq<char>, JsonValue>)
    requires
        m.dom().finite(),
    ensures
        strictly_sorted(sorted_keys(m)),
        sorted_keys(m).to_set() == m.dom(),
{
    let q = lemma_sorted_seq_exists(m.dom());
    assert(strictly_sorted(q) && q.to_set() == m.dom());
}

/// The fields of a concatenation are the fields of its parts.
pub proof fn lemma_signed_fields_append(
    a: Seq<Seq<char>>,
    b: Seq<Seq<char>>,
    m: Map<Seq<char>, JsonValue>,
    skip: Seq<Seq<char>>,
)
    ensures
        signed_fields(a + b, m, skip) == signed_fields(a, m, skip) + signed_fields(b, m, skip),
    decreases b.len(),
{
    if b.len() == 0 {
        assert(a + b =~= a);
        assert(signed_fields(a, m, skip) + signed_fields(b, m, skip) =~= signed_fields(a, m, skip));
    } else {
        assert((a + b).drop_last() =~= a + b.drop_last());
        assert((a + b).last() == b.last());
        lemma_signed_fields_append(a, b.drop_last(), m, skip);
        let fa = signed_fields(a, m, skip);
        let fb = signed_fields(b.drop_last(), m, skip);
        let k = b.last();
        if !skip.contains(k) {
            match field_text(m[k]) {
                Some(t) => {
                    assert(fa + fb + "|"@ + t =~= fa + (fb + "|"@ + t));
                },
                None => {},
            }
        }
    }
}

/// The fields under `keys` depend only on the values at those keys.
pub proof fn lemma_signed_fields_agree(
    keys: Seq<Seq<char>>,
    m1: Map<Seq<char>, JsonValue>,
    m2: Map<Seq<char>, JsonValue>,
    skip: Seq<Seq<char>>,
)
    requires
        forall|j: int| 0 <= j < keys.len() ==> m1[keys[j]] == m2[keys[j]],
    ensures
        signed_fields(keys, m1, skip) == signed_fields(keys, m2, skip),
    decreases keys.len(),
{
    if keys.len() > 0 {
        lemma_signed_fields_agree(keys.drop_last(), m1, m2, skip);
        assert(m1[keys.last()] == m2[keys.last()]);
    }
}

/// Adding or changing a field that the signature leaves out does not change
/// the signature: a field whose key is skipped, or a new field whose value
/// contributes no text (null, an empty string, an array or an object).
pub proof fn lemma_ignored_field_keeps_signature(
    password: Seq<char>,
    m: Map<Seq<char>, JsonValue>,
    skip: Seq<Seq<char>>,
    k: Seq<char>,
    v: JsonValue,
)
    requires
        m.dom().finite(),
        skip.contains(k) || (field_text(v) is None && !m.dom().contains(k)),
    ensures
        request_signature(password, m.insert(k, v), skip) == request_signature(password, m, skip),
{
    let m2 = m.insert(k, v);
    lemma_sorted_keys(m);
    lemma_sorted_keys(m2);
    let q = sorted_keys(m);
    let q2 = sorted_keys(m2);
    if m.dom().contains(k) {
        assert(m2.dom() =~= m.dom());
        lemma_sorted_keys_unique(q, q2);
        assert(signed_fields(q, m2, skip) == signed_fields(q, m, skip)) by {
            lemma_signed_fields_congruent_except_skipped(q, m, m2, skip, k);
        }
    } else {
        assert(!q.contains(k)) by {
            if q.contains(k) {
                assert(q.to_set().contains(k));
            }
        }
        let p = lemma_sorted_insert(q, k);
        let r = q.insert(p, k);
        assert(r.to_set() =~= m2.dom()) by {
            assert forall|x: Seq<char>| r.to_set().contains(x) <==> m2.dom().contains(x) by {
                if r.to_set().contains(x) && x != k {
                    let j = choose|j: int| 0 <= j < r.len() && r[j] == x;
                    if j < p {
                        assert(q[j] == x);
                    } else {
                        assert(q[j - 1] == x);
                    }
                    assert(q.to_set().contains(x));
                }
                if m2.dom().contains(x) {
                    if x == k {
                        assert(r[p] == k);
                    } else {
                        assert(q.to_set().contains(x));
                        let j = choose|j: int| 0 <= j < q.len() && q[j] == x;
                        if j < p {
                            assert(r[j] == x);
                        } else {
                            assert(r[j + 1] == x);
                        }
                    }
                }
            }
        }
        lemma_sorted_keys_unique(r, q2);
        let lo = q.subrange(0, p);
        let hi = q.subrange(p, q.len() as int);
        assert(r =~= lo + seq![k] + hi);
        assert(q =~= lo + hi);
        lemma_signed_fields_append(lo + seq![k], hi, m2, skip);
        lemma_signed_fields_append(lo, seq![k], m2, skip);
        lemma_signed_fields_append(lo, hi, m, skip);
        assert(seq![k].drop_last() =~= Seq::<Seq<char>>::empty());
        assert(seq![k].last() == k);
        assert(m2[k] == v);
        assert(signed_fields(Seq::<Seq<char>>::empty(), m2, skip) =~= Seq::<char>::empty());
        assert(signed_fields(seq![k], m2, skip) =~= Seq::<char>::empty());
        assert forall|j: int| 0 <= j < lo.len() implies m[lo[j]] == m2[lo[j]] by {
            assert(q.to_set().contains(lo[j]));
        }
        assert forall|j: int| 0 <= j < hi.len() implies m[hi[j]] == m2[hi[j]] by {
            assert(q.to_set().contains(hi[j]));
        }
        lemma_signed_fields_agree(lo, m, m2, skip);
        lemma_signed_fields_agree(hi, m, m2, skip);
    }
}

/// Fields agree when the maps differ only at a skipped key.
proof fn lemma_signed_fields_congruent_except_skipped(
    keys: Seq<Seq<char>>,
    m1: Map<Seq<char>, JsonValue>,
    m2: Map<Seq<char>, JsonValue>,
    skip: Seq<Seq<char>>,
    k: Seq<char>,
)
    requires
        skip.contains(k),
        m2 == m1.insert(k, m2[k]),
    ensures
        signed_fields(keys, m2, skip) == signed_fields(keys, m1, skip),
    decreases keys.len(),
{
    if keys.len() > 0 {
        lemma_signed_fields_congruent_except_skipped(keys.drop_last(), m1, m2, skip, k);
    }
}


/// The signature of an object does not depend on the order of its entries.
pub proof fn lemma_signature_ignores_entry_order(
    password: Seq<char>,
    s1: Seq<(Seq<char>, JsonValue)>,
    s2: Seq<(Seq<char>, JsonValue)>,
    skip: Seq<Seq<char>>,
)
    requires
        keys_distinct(s1),
        keys_distinct(s2),
        forall|e: (Seq<char>, JsonValue)| s1.contains(e) <==> s2.contains(e),
    ensures
        request_signature(password, entries_map(s1), skip) == request_signature(
            password,
            entries_map(s2),
            skip,
        ),
{
    crate::json::lemma_entry_order_irrelevant(s1, s2);
}

/// Adding a field whose key comes after every key of the object, and is not
/// skipped, appends that field's text, after a `|`, to the signed string.
pub proof fn lemma_signature_base_append(
    password: Seq<char>,
    m: Map<Seq<char>, JsonValue>,
    skip: Seq<Seq<char>>,
    k: Seq<char>,
    v: JsonValue,
)
    requires
        m.dom().finite(),
        forall|x: Seq<char>| m.dom().contains(x) ==> key_lt(x, k),
        !skip.contains(k),
    ensures
        signature_base(password, m.insert(k, v), skip) == signature_base(password, m, skip) + match field_text(v) {
            Some(t) => "|"@ + t,
            None => Seq::<char>::empty(),
        },
{
    let m2 = m.insert(k, v);
    lemma_sorted_keys(m);
    lemma_sorted_keys(m2);
    let q = sorted_keys(m);
    let r = q.push(k);
    assert forall|a: int, b: int| 0 <= a < b < r.len() implies key_lt(r[a], r[b]) by {
        if b == q.len() {
            assert(q.to_set().contains(q[a]));
        } else {
            assert(r[a] == q[a] && r[b] == q[b]);
        }
    }
    assert forall|x: Seq<char>| r.to_set().contains(x) <==> m2.dom().contains(x) by {
        if r.to_set().contains(x) && x != k {
            let j = choose|j: int| 0 <= j < r.len() && r[j] == x;
            assert(q[j] == x);
            assert(q.to_set().contains(x));
        }
        if m2.dom().contains(x) {
            if x == k {
                assert(r[q.len() as int] == k);
            } else {
                assert(q.to_set().contains(x));
                let j = choose|j: int| 0 <= j < q.len() && q[j] == x;
                assert(r[j] == x);
            }
        }
    }
    assert(r.to_set() =~= m2.dom());
    lemma_sorted_keys_unique(r, sorted_keys(m2));
    assert(r.drop_last() =~= q);
    assert(r.last() == k);
    assert forall|j: int| 0 <= j < q.len() implies m[q[j]] == m2[q[j]] by {
        assert(q.to_set().contains(q[j]));
        lemma_key_lt_order(q[j], k, k);
    }
    lemma_signed_fields_agree(q, m, m2, skip);
    let base = signature_base(password, m, skip);
    match field_text(v) {
        Some(t) => {
            assert(password + (signed_fields(q, m, skip) + "|"@ + t) =~= base + ("|"@ + t));
        },
        None => {
            assert(base + Seq::<char>::empty() =~= base);
        },
    }
}

/// An object with no fields is signed as the password alone.
pub proof fn lemma_signature_base_of_empty(password: Seq<char>, skip: Seq<Seq<char>>)
    ensures
        signature_base(password, Map::empty(), skip) == password,
{
    let m = Map::<Seq<char>, JsonValue>::empty();
    lemma_sorted_keys(m);
    let e = Seq::<Seq<char>>::empty();
    assert(e.to_set() =~= m.dom());
    lemma_sorted_keys_unique(sorted_keys(m), e);
    assert(password + Seq::<char>::empty() =~= password);
}

/// Text without the character `c` is left as it is by trimming `c`.
pub proof fn lemma_trim_char_without(s: Seq<char>, c: char)
    requires
        forall|i: int| 0 <= i < s.len() ==> s[i] != c,
    ensures
        trim_char(s, c) == s,
{
    if s.len() > 0 {
        assert(s[s.len() - 1] != c);
    }
}

/// Text with no quote, backslash or control character is written by the
/// JSON serializer as it is.
pub proof fn lemma_plain_text_unescaped(t: Seq<char>)
    requires
        forall|i: int| 0 <= i < t.len() ==> #[trigger] t[i] != '"' && t[i] != '\\' && (t[i] as u32)
            >= 32,
    ensures
        json_escaped(t) == t,
    decreases t.len(),
{
    if t.len() > 0 {
        let init = t.drop_last();
        assert forall|i: int| 0 <= i < init.len() implies #[trigger] init[i] != '"' && init[i] != '\\'
            && (init[i] as u32) >= 32 by {
            assert(init[i] == t[i]);
        }
        lemma_plain_text_unescaped(init);
        assert(t[t.len() - 1] == t.last());
        assert(init + seq![t.last()] =~= t);
    }
}

/// A boolean field whose key comes after every other key, and is not
/// skipped, adds `|true` or `|false` to the signed string.
pub proof fn lemma_bool_field_signed(
    password: Seq<char>,
    m: Map<Seq<char>, JsonValue>,
    skip: Seq<Seq<char>>,
    k: Seq<char>,
    b: bool,
)
    requires
        m.dom().finite(),
        forall|x: Seq<char>| m.dom().contains(x) ==> key_lt(x, k),
        !skip.contains(k),
    ensures
        signature_base(password, m.insert(k, JsonValue::Bool(b)), skip) == signature_base(
            password,
            m,
            skip,
        ) + "|"@ + (if b { "true"@ } else { "false"@ }),
{
    lemma_signature_base_append(password, m, skip, k, JsonValue::Bool(b));
    let base = signature_base(password, m, skip);
    let w: Seq<char> = if b { "true"@ } else { "false"@ };
    assert(base + ("|"@ + w) =~= base + "|"@ + w);
}

/// The signature of a one-field object `{k: b}` with `k` not skipped is the
/// SHA-1 of the password, `|` and `true` or `false`.
pub proof fn lemma_one_bool_field_signature(password: Seq<char>, skip: Seq<Seq<char>>, k: Seq<char>, b: bool)
    requires
        !skip.contains(k),
    ensures
        request_signature(password, Map::empty().insert(k, JsonValue::Bool(b)), skip) == sha1_hex(
            vstd::utf8::encode_utf8(password + "|"@ + (if b { "true"@ } else { "false"@ })),
        ),
{
    lemma_signature_base_of_empty(password, skip);
    lemma_bool_field_signed(password, Map::empty(), skip, k, b);
}

/// A number field whose key comes after every other key, and is not
/// skipped, adds `|` and the number's JSON text to the signed string, whatever
/// the number.
pub proof fn lemma_number_field_signed(
    password: Seq<char>,
    m: Map<Seq<char>, JsonValue>,
    skip: Seq<Seq<char>>,
    k: Seq<char>,
    n: String,
)
    requires
        m.dom().finite(),
        forall|x: Seq<char>| m.dom().contains(x) ==> key_lt(x, k),
        !skip.contains(k),
        forall|i: int| 0 <= i < n@.len() ==> n@[i] != '"',
    ensures
        signature_base(password, m.insert(k, JsonValue::Number(n)), skip) == signature_base(
            password,
            m,
            skip,
        ) + "|"@ + n@,
{
    lemma_signature_base_append(password, m, skip, k, JsonValue::Number(n));
    lemma_trim_char_without(n@, '"');
    let base = signature_base(password, m, skip);
    assert(base + ("|"@ + n@) =~= base + "|"@ + n@);
}

/// The signature of a one-field object `{k: n}` with `k` not skipped is the
/// SHA-1 of the password, `|` and the number's JSON text.
pub proof fn lemma_one_number_field_signature(
    password: Seq<char>,
    skip: Seq<Seq<char>>,
    k: Seq<char>,
    n: String,
)
    requires
        !skip.contains(k),
        forall|i: int| 0 <= i < n@.len() ==> n@[i] != '"',
    ensures
        request_signature(password, Map::empty().insert(k, JsonValue::Number(n)), skip) == sha1_hex(
            vstd::utf8::encode_utf8(password + "|"@ + n@),
        ),
{
    lemma_signature_base_of_empty(password, skip);
    lemma_number_field_signed(password, Map::empty(), skip, k, n);
}

/// A non-empty string field with no quote, backslash or control character,
/// whose key comes after every other key and is not skipped, adds `|` and
/// the string itself to the signed string.
pub proof fn lemma_plain_string_field_signed(
    password: Seq<char>,
    m: Map<Seq<char>, JsonValue>,
    skip: Seq<Seq<char>>,
    k: Seq<char>,
    t: String,
)
    requires
        m.dom().finite(),
        forall|x: Seq<char>| m.dom().contains(x) ==> key_lt(x, k),
        !skip.contains(k),
        t@.len() > 0,
        forall|i: int| 0 <= i < t@.len() ==> #[trigger] t@[i] != '"' && t@[i] != '\\' && (t@[i] as u32)
            >= 32,
    ensures
        signature_base(password, m.insert(k, JsonValue::String(t)), skip) == signature_base(
            password,
            m,
            skip,
        ) + "|"@ + t@,
{
    lemma_signature_base_append(password, m, skip, k, JsonValue::String(t));
    lemma_plain_text_unescaped(t@);
    let lit = json_string_literal(t@);
    let tail = t@ + seq!['"'];
    assert(lit.drop_first() =~= tail);
    assert(tail[0] == t@[0]);
    assert(trim_start_char(tail, '"') == tail);
    assert(trim_start_char(lit, '"') == tail);
    assert(tail.drop_last() =~= t@);
    assert(t@.last() == t@[t@.len() - 1]);
    assert(trim_end_char(t@, '"') == t@);
    assert(trim_end_char(tail, '"') == t@);
    let base = signature_base(password, m, skip);
    assert(base + ("|"@ + t@) =~= base + "|"@ + t@);
}

/// The signature of a one-field object `{k: t}`, with `t` a non-empty string
/// with no quote, backslash or control character and `k` not skipped, is the
/// SHA-1 of the password, `|` and `t`.
pub proof fn lemma_one_plain_string_field_signature(
    password: Seq<char>,
    skip: Seq<Seq<char>>,
    k: Seq<char>,
    t: String,
)
    requires
        !skip.contains(k),
        t@.len() > 0,
        forall|i: int| 0 <= i < t@.len() ==> #[trigger] t@[i] != '"' && t@[i] != '\\' && (t@[i] as u32)
            >= 32,
    ensures
        request_signature(password, Map::empty().insert(k, JsonValue::String(t)), skip) == sha1_hex(
            vstd::utf8::encode_utf8(password + "|"@ + t@),
        ),
{
    lemma_signature_base_of_empty(password, skip);
    lemma_plain_string_field_signed(password, Map::empty(), skip, k, t);
}

/// A string field whose key comes after every other key, and is not skipped,
/// leaves the signed string unchanged exactly when the string is empty.
pub proof fn lemma_string_field_signed_unless_empty(
    password: Seq<char>,
    m: Map<Seq<char>, JsonValue>,
    skip: Seq<Seq<char>>,
    k: Seq<char>,
    t: String,
)
    requires
        m.dom().finite(),
        forall|x: Seq<char>| m.dom().contains(x) ==> key_lt(x, k),
        !skip.contains(k),
    ensures
        (signature_base(password, m.insert(k, JsonValue::String(t)), skip) == signature_base(
            password,
            m,
            skip,
        )) <==> t@.len() == 0,
        t@.len() > 0 ==> signature_base(password, m.insert(k, JsonValue::String(t)), skip).len()
            > signature_base(password, m, skip).len(),
{
    lemma_signature_base_append(password, m, skip, k, JsonValue::String(t));
    let base = signature_base(password, m, skip);
    if t@.len() == 0 {
        assert(base + Seq::<char>::empty() =~= base);
    } else {
        let x = trim_char(json_string_literal(t@), '"');
        assert(field_text(JsonValue::String(t)) == Some(x));
        reveal_strlit("|");
        assert((base + ("|"@ + x)).len() > base.len());
    }
}

} // verus!
