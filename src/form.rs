use vstd::prelude::*;
use vstd::utf8::{decode_utf8, encode_utf8, encode_utf8_decode_utf8, encode_utf8_valid_utf8, valid_utf8};

verus! {

pub const AMPERSAND: u8 = 38;

pub const EQUALS: u8 = 61;

pub const PERCENT: u8 = 37;

pub const PLUS: u8 = 43;

pub const SPACE: u8 = 32;

/// The index of the first `b` in `s`, or `s.len()` when there is none.
pub open spec fn find_byte(s: Seq<u8>, b: u8) -> int
    decreases s.len(),
{
    if s.len() == 0 || s[0] == b {
        0
    } else {
        1 + find_byte(s.drop_first(), b)
    }
}

pub open spec fn hex_digit_value(b: u8) -> Option<u8> {
    if 48 <= b && b <= 57 {
        Some((b - 48) as u8)
    } else if 97 <= b && b <= 102 {
        Some((b - 97 + 10) as u8)
    } else if 65 <= b && b <= 70 {
        Some((b - 65 + 10) as u8)
    } else {
        None
    }
}

/// Form decoding of one name or value: `+` is a space, `%` with two hex digits
/// is the byte they spell, and every other byte stands for itself.
pub open spec fn percent_decode(s: Seq<u8>) -> Seq<u8>
    decreases s.len(),
{
    if s.len() == 0 {
        seq![]
    } else if s[0] == PERCENT && s.len() >= 3 && hex_digit_value(s[1]) is Some && hex_digit_value(
        s[2],
    ) is Some {
        seq![(hex_digit_value(s[1])->0 * 16 + hex_digit_value(s[2])->0) as u8] + percent_decode(
            s.subrange(3, s.len() as int),
        )
    } else if s[0] == PLUS {
        seq![SPACE] + percent_decode(s.drop_first())
    } else {
        seq![s[0]] + percent_decode(s.drop_first())
    }
}

/// The pieces of `s` between `&` separators, empty ones included.
#[verifier::opaque]
pub open spec fn fields(s: Seq<u8>) -> Seq<Seq<u8>>
    decreases s.len(),
{
    let k = find_byte(s, AMPERSAND);
    if k < 0 || k >= s.len() {
        seq![s]
    } else {
        seq![s.subrange(0, k)] + fields(s.subrange(k + 1, s.len() as int))
    }
}

/// The decoded part of a field before its first `=`.
pub open spec fn field_key(f: Seq<u8>) -> Seq<u8> {
    percent_decode(f.subrange(0, find_byte(f, EQUALS)))
}

/// The decoded part of a field after its first `=`; empty when it has none.
pub open spec fn field_value(f: Seq<u8>) -> Seq<u8> {
    let k = find_byte(f, EQUALS);
    if k < f.len() {
        percent_decode(f.subrange(k + 1, f.len() as int))
    } else {
        seq![]
    }
}

/// The value that the field `f` gives to `key`: none, unless `f` is not empty
/// and its key is `key`.
pub open spec fn field_hits(f: Seq<u8>, key: Seq<u8>) -> Seq<Seq<u8>> {
    if f.len() > 0 && field_key(f) == key {
        seq![field_value(f)]
    } else {
        seq![]
    }
}

/// The values given to `key` by the fields `fs`, in order.
#[verifier::opaque]
pub open spec fn values_for(fs: Seq<Seq<u8>>, key: Seq<u8>) -> Seq<Seq<u8>>
    decreases fs.len(),
{
    if fs.len() == 0 {
        seq![]
    } else {
        field_hits(fs[0], key) + values_for(fs.drop_first(), key)
    }
}

/// Every value that the form-encoded `body` gives to `key`.
pub open spec fn form_values(body: Seq<u8>, key: Seq<u8>) -> Seq<Seq<u8>> {
    values_for(fields(body), key)
}

/// `name`, in ASCII.
pub open spec fn name_key() -> Seq<u8> {
    seq![110u8, 97u8, 109u8, 101u8]
}

/// `email`, in ASCII.
pub open spec fn email_key() -> Seq<u8> {
    seq![101u8, 109u8, 97u8, 105u8, 108u8]
}

/// `find_byte` is the first index that holds `b`.
proof fn lemma_find_byte(s: Seq<u8>, b: u8, k: int)
    requires
        0 <= k <= s.len(),
        forall|j: int| 0 <= j < k ==> s[j] != b,
        k == s.len() || s[k] == b,
    ensures
        find_byte(s, b) == k,
    decreases k,
{
    if k > 0 {
        lemma_find_byte(s.drop_first(), b, k - 1);
    }
}

/// The first index of `b` in `s[from..to]`, or `to` when there is none.
fn find_in(s: &[u8], b: u8, from: usize, to: usize) -> (k: usize)
    requires
        from <= to <= s@.len(),
    ensures
        from <= k <= to,
        k - from == find_byte(s@.subrange(from as int, to as int), b),
{
    let mut k = from;
    while k < to && s[k] != b
        invariant
            from <= k <= to <= s@.len(),
            forall|j: int| from <= j < k ==> s@[j] != b,
        decreases to - k,
    {
        k = k + 1;
    }
    proof {
        lemma_find_byte(s@.subrange(from as int, to as int), b, k - from);
    }
    k
}

fn hex_digit(b: u8) -> (r: Option<u8>)
    ensures
        r == hex_digit_value(b),
{
    if 48 <= b && b <= 57 {
        Some(b - 48)
    } else if 97 <= b && b <= 102 {
        Some(b - 97 + 10)
    } else if 65 <= b && b <= 70 {
        Some(b - 65 + 10)
    } else {
        None
    }
}

/// Decodes `s[from..to]` as `percent_decode` says.
fn decode_range(s: &[u8], from: usize, to: usize) -> (out: Vec<u8>)
    requires
        from <= to <= s@.len(),
    ensures
        out@ == percent_decode(s@.subrange(from as int, to as int)),
{
    let mut out: Vec<u8> = Vec::new();
    let mut i = from;
    while i < to
        invariant
            from <= i <= to <= s@.len(),
            out@ + percent_decode(s@.subrange(i as int, to as int)) == percent_decode(
                s@.subrange(from as int, to as int),
            ),
        decreases to - i,
    {
        let ghost rest = s@.subrange(i as int, to as int);
        let b = s[i];
        if b == PERCENT && to - i >= 3 {
            let hi = hex_digit(s[i + 1]);
            let lo = hex_digit(s[i + 2]);
            if hi.is_some() && lo.is_some() {
                let h = hi.unwrap();
                let l = lo.unwrap();
                let v: u8 = h * 16 + l;
                assert(rest.subrange(3, rest.len() as int) == s@.subrange(i + 3, to as int));
                assert(out@.push(v) + percent_decode(s@.subrange(i + 3, to as int))
                    == out@ + percent_decode(rest));
                out.push(v);
                i = i + 3;
                continue;
            }
        }
        assert(rest.drop_first() == s@.subrange(i + 1, to as int));
        if b == PLUS {
            assert(out@.push(SPACE) + percent_decode(s@.subrange(i + 1, to as int)) == out@
                + percent_decode(rest));
            out.push(SPACE);
        } else {
            assert(out@.push(b) + percent_decode(s@.subrange(i + 1, to as int)) == out@
                + percent_decode(rest));
            out.push(b);
        }
        i = i + 1;
    }
    assert(s@.subrange(to as int, to as int) == Seq::<u8>::empty());
    out
}


/// Why a request body does not give one `name` and one `email`.
#[derive(Debug, Clone, Copy, PartialEq, Eq, Structural)]
pub enum FormError {
    MissingField,
    DuplicateField,
    NotUtf8,
}

/// The two fields of a subscription form, decoded but not yet validated.
#[derive(Debug)]
pub struct SubscribeForm {
    pub name: String,
    pub email: String,
}

/// What is wrong with `body` as a subscription form, if anything: each of the
/// two fields must be given exactly once, and must decode to UTF-8 text.
pub open spec fn form_error(body: Seq<u8>) -> Option<FormError> {
    let names = form_values(body, name_key());
    let emails = form_values(body, email_key());
    if names.len() == 0 || emails.len() == 0 {
        Some(FormError::MissingField)
    } else if names.len() > 1 || emails.len() > 1 {
        Some(FormError::DuplicateField)
    } else if !valid_utf8(names[0]) || !valid_utf8(emails[0]) {
        Some(FormError::NotUtf8)
    } else {
        None
    }
}

/// The text of the one `key` field of `body`, where `form_error(body)` is `None`.
pub open spec fn form_text(body: Seq<u8>, key: Seq<u8>) -> Seq<char> {
    decode_utf8(form_values(body, key)[0])
}

/// Relies on `String::from_utf8`: it succeeds exactly on valid UTF-8, and the
/// string then holds the characters that the bytes encode.
#[verifier::external_body]
fn string_from_utf8(b: Vec<u8>) -> (r: Option<String>)
    ensures
        r is Some <==> valid_utf8(b@),
        r matches Some(s) ==> s@ == decode_utf8(b@),
{
    String::from_utf8(b).ok()
}

fn is_name_key(k: &Vec<u8>) -> (r: bool)
    ensures
        r == (k@ == name_key()),
{
    let r = k.len() == 4 && k[0] == 110 && k[1] == 97 && k[2] == 109 && k[3] == 101;
    proof {
        if r {
            assert(k@ == name_key());
        }
    }
    r
}

fn is_email_key(k: &Vec<u8>) -> (r: bool)
    ensures
        r == (k@ == email_key()),
{
    let r = k.len() == 5 && k[0] == 101 && k[1] == 109 && k[2] == 97 && k[3] == 105 && k[4]
        == 108;
    proof {
        if r {
            assert(k@ == email_key());
        }
    }
    r
}

/// The decoded key and value of the field `s[from..to]`.
fn decode_field(s: &[u8], from: usize, to: usize) -> (kv: (Vec<u8>, Vec<u8>))
    requires
        from <= to <= s@.len(),
    ensures
        kv.0@ == field_key(s@.subrange(from as int, to as int)),
        kv.1@ == field_value(s@.subrange(from as int, to as int)),
{
    let ghost seg = s@.subrange(from as int, to as int);
    let eq = find_in(s, EQUALS, from, to);
    assert(seg.subrange(0, eq - from) == s@.subrange(from as int, eq as int));
    let key = decode_range(s, from, eq);
    let value = if eq < to {
        assert(seg.subrange(eq - from + 1, seg.len() as int) == s@.subrange(eq + 1, to as int));
        decode_range(s, eq + 1, to)
    } else {
        Vec::new()
    };
    (key, value)
}

/// `values_for` takes its fields one at a time, from the front.
proof fn lemma_values_for_first(f: Seq<u8>, rest: Seq<Seq<u8>>, key: Seq<u8>)
    ensures
        values_for(seq![f] + rest, key) == field_hits(f, key) + values_for(rest, key),
{
    reveal(values_for);
    assert((seq![f] + rest).drop_first() == rest);
}

/// One step of reading a body `s` whose first `&` is at `k`.
proof fn lemma_form_step(s: Seq<u8>, k: int, key: Seq<u8>)
    requires
        k == find_byte(s, AMPERSAND),
        0 <= k <= s.len(),
    ensures
        k == s.len() ==> values_for(fields(s), key) == field_hits(s, key),
        k < s.len() ==> values_for(fields(s), key) == field_hits(s.subrange(0, k), key)
            + values_for(fields(s.subrange(k + 1, s.len() as int)), key),
{
    reveal(fields);
    if k == s.len() {
        lemma_values_for_first(s, seq![], key);
        reveal(values_for);
        assert(seq![s] + Seq::<Seq<u8>>::empty() == seq![s]);
        assert(field_hits(s, key) + Seq::<Seq<u8>>::empty() == field_hits(s, key));
    } else {
        lemma_values_for_first(s.subrange(0, k), fields(s.subrange(k + 1, s.len() as int)), key);
    }
}

/// The keys that a subscription form is read for.
#[derive(PartialEq, Eq, Structural)]
enum Key {
    Name,
    Email,
    Other,
}

/// Which of the two fields `s[from..to]` gives, and its decoded value.
fn read_field(s: &[u8], from: usize, to: usize) -> (r: (Key, Vec<u8>))
    requires
        from <= to <= s@.len(),
    ensures
        field_hits(s@.subrange(from as int, to as int), name_key()) == (if r.0 == Key::Name {
            seq![r.1@]
        } else {
            seq![]
        }),
        field_hits(s@.subrange(from as int, to as int), email_key()) == (if r.0 == Key::Email {
            seq![r.1@]
        } else {
            seq![]
        }),
{
    if from == to {
        return (Key::Other, Vec::new());
    }
    let (key, value) = decode_field(s, from, to);
    if is_name_key(&key) {
        (Key::Name, value)
    } else if is_email_key(&key) {
        (Key::Email, value)
    } else {
        (Key::Other, value)
    }
}

/// Reads the `name` and `email` fields of an `application/x-www-form-urlencoded`
/// body. Fields with other keys are ignored.
pub fn parse_subscribe_form(body: &[u8]) -> (r: Result<SubscribeForm, FormError>)
    ensures
        r matches Err(e) ==> form_error(body@) == Some(e),
        r is Ok <==> form_error(body@) is None,
        r matches Ok(f) ==> f.name@ == form_text(body@, name_key()) && f.email@ == form_text(
            body@,
            email_key(),
        ),
{
    let n = body.len();
    let mut start: usize = 0;
    let mut more = true;
    let mut name_count: usize = 0;
    let mut name_val: Vec<u8> = Vec::new();
    let mut email_count: usize = 0;
    let mut email_val: Vec<u8> = Vec::new();
    let ghost mut names: Seq<Seq<u8>> = seq![];
    let ghost mut emails: Seq<Seq<u8>> = seq![];
    assert(body@.subrange(0, n as int) == body@);
    while more
        invariant
            start <= n == body@.len(),
            more ==> form_values(body@, name_key()) == names + values_for(
                fields(body@.subrange(start as int, n as int)),
                name_key(),
            ),
            more ==> form_values(body@, email_key()) == emails + values_for(
                fields(body@.subrange(start as int, n as int)),
                email_key(),
            ),
            !more ==> form_values(body@, name_key()) == names,
            !more ==> form_values(body@, email_key()) == emails,
            name_count == if names.len() >= 2 {
                2
            } else {
                names.len()
            },
            names.len() > 0 ==> name_val@ == names.last(),
            email_count == if emails.len() >= 2 {
                2
            } else {
                emails.len()
            },
            emails.len() > 0 ==> email_val@ == emails.last(),
        decreases
                (if more {
                    n - start + 1
                } else {
                    0
                }),
    {
        let end = find_in(body, AMPERSAND, start, n);
        let ghost sub = body@.subrange(start as int, n as int);
        let ghost seg = body@.subrange(start as int, end as int);
        let ghost names_before = names;
        let ghost emails_before = emails;
        proof {
            lemma_form_step(sub, end - start, name_key());
            lemma_form_step(sub, end - start, email_key());
            assert(sub.subrange(0, end - start) == seg);
        }
        let (which, value) = read_field(body, start, end);
        if which == Key::Name {
            proof {
                names = names.push(value@);
            }
            name_val = value;
            if name_count < 2 {
                name_count = name_count + 1;
            }
        } else if which == Key::Email {
            proof {
                emails = emails.push(value@);
            }
            email_val = value;
            if email_count < 2 {
                email_count = email_count + 1;
            }
        }
        assert(names =~= names_before + field_hits(seg, name_key()));
        assert(emails =~= emails_before + field_hits(seg, email_key()));
        if end == n {
            assert(sub == seg);
            more = false;
        } else {
            assert(sub.subrange(end - start + 1, sub.len() as int) == body@.subrange(
                end + 1,
                n as int,
            ));
            start = end + 1;
        }
    }
    if name_count == 0 || email_count == 0 {
        return Err(FormError::MissingField);
    }
    if name_count > 1 || email_count > 1 {
        return Err(FormError::DuplicateField);
    }
    let name = string_from_utf8(name_val);
    let email = string_from_utf8(email_val);
    match (name, email) {
        (Some(name), Some(email)) => Ok(SubscribeForm { name, email }),
        _ => Err(FormError::NotUtf8),
    }
}


/// The uppercase hex digit for `d`, where `d < 16`.
pub open spec fn upper_hex_digit(d: int) -> u8 {
    if d < 10 {
        (48 + d) as u8
    } else {
        (55 + d) as u8
    }
}

/// Every byte of `b` written as `%` and two uppercase hex digits.
pub open spec fn percent_encode(b: Seq<u8>) -> Seq<u8>
    decreases b.len(),
{
    if b.len() == 0 {
        seq![]
    } else {
        seq![PERCENT, upper_hex_digit(b[0] as int / 16), upper_hex_digit(b[0] as int % 16)]
            + percent_encode(b.drop_first())
    }
}

/// The form body `name=...&email=...` that carries `name` and `email`, every
/// byte of their UTF-8 text escaped.
pub open spec fn subscription_body(name: Seq<char>, email: Seq<char>) -> Seq<u8> {
    name_key() + seq![EQUALS] + percent_encode(encode_utf8(name)) + seq![AMPERSAND] + email_key()
        + seq![EQUALS] + percent_encode(encode_utf8(email))
}

proof fn lemma_percent_encode_shape(b: Seq<u8>)
    ensures
        percent_encode(b).len() == 3 * b.len(),
        forall|j: int|
            0 <= j < percent_encode(b).len() ==> #[trigger] percent_encode(b)[j] != AMPERSAND
                && percent_encode(b)[j] != EQUALS,
    decreases b.len(),
{
    if b.len() > 0 {
        lemma_percent_encode_shape(b.drop_first());
        let head = seq![PERCENT, upper_hex_digit(b[0] as int / 16), upper_hex_digit(b[0] as int % 16)];
        let tail = percent_encode(b.drop_first());
        assert forall|j: int| 0 <= j < percent_encode(b).len() implies #[trigger] percent_encode(
            b,
        )[j] != AMPERSAND && percent_encode(b)[j] != EQUALS by {
            if j >= 3 {
                assert(percent_encode(b)[j] == tail[j - 3]);
            }
        }
    }
}

proof fn lemma_percent_round_trip(b: Seq<u8>)
    ensures
        percent_decode(percent_encode(b)) == b,
    decreases b.len(),
{
    if b.len() > 0 {
        let s = percent_encode(b);
        let x = b[0];
        lemma_percent_encode_shape(b);
        assert(hex_digit_value(s[1]) == Some((x / 16) as u8));
        assert(hex_digit_value(s[2]) == Some((x % 16) as u8));
        assert(s.subrange(3, s.len() as int) == percent_encode(b.drop_first()));
        lemma_percent_round_trip(b.drop_first());
        assert(b == seq![x] + b.drop_first());
    }
}

proof fn lemma_decode_plain(s: Seq<u8>)
    requires
        forall|i: int| 0 <= i < s.len() ==> #[trigger] s[i] != PERCENT && s[i] != PLUS,
    ensures
        percent_decode(s) == s,
    decreases s.len(),
{
    if s.len() > 0 {
        lemma_decode_plain(s.drop_first());
        assert(s == seq![s[0]] + s.drop_first());
    }
}

/// The field `key=<value escaped>`: its key decodes to `key`, its value to `value`.
proof fn lemma_encoded_field(key: Seq<u8>, value: Seq<u8>)
    requires
        forall|i: int| 0 <= i < key.len() ==> #[trigger] key[i] != PERCENT && key[i] != PLUS
            && key[i] != EQUALS && key[i] != AMPERSAND,
    ensures
        field_key(key + seq![EQUALS] + percent_encode(value)) == key,
        field_value(key + seq![EQUALS] + percent_encode(value)) == value,
        forall|j: int|
            0 <= j < (key + seq![EQUALS] + percent_encode(value)).len() ==> #[trigger] (key
                + seq![EQUALS] + percent_encode(value))[j] != AMPERSAND,
{
    let f = key + seq![EQUALS] + percent_encode(value);
    lemma_percent_encode_shape(value);
    assert forall|j: int| 0 <= j < key.len() implies f[j] != EQUALS by {
        assert(f[j] == key[j]);
    }
    lemma_find_byte(f, EQUALS, key.len() as int);
    assert(f.subrange(0, key.len() as int) == key);
    lemma_decode_plain(key);
    assert(f.subrange(key.len() as int + 1, f.len() as int) == percent_encode(value));
    lemma_percent_round_trip(value);
    assert forall|j: int| 0 <= j < f.len() implies #[trigger] f[j] != AMPERSAND by {
        if j < key.len() {
            assert(f[j] == key[j]);
        } else if j > key.len() {
            assert(f[j] == percent_encode(value)[j - key.len() - 1]);
        }
    }
}

/// Encoding then reading gives back both fields: `parse_subscribe_form` reads
/// from `subscription_body(name, email)` exactly `name` and `email`.
pub proof fn lemma_subscription_body_round_trip(name: Seq<char>, email: Seq<char>)
    ensures
        form_error(subscription_body(name, email)) is None,
        form_text(subscription_body(name, email), name_key()) == name,
        form_text(subscription_body(name, email), email_key()) == email,
{
    let nb = encode_utf8(name);
    let eb = encode_utf8(email);
    let seg1 = name_key() + seq![EQUALS] + percent_encode(nb);
    let seg2 = email_key() + seq![EQUALS] + percent_encode(eb);
    let body = subscription_body(name, email);
    assert(body == seg1 + seq![AMPERSAND] + seg2);
    lemma_encoded_field(name_key(), nb);
    lemma_encoded_field(email_key(), eb);
    let k = seg1.len() as int;
    assert forall|j: int| 0 <= j < k implies body[j] != AMPERSAND by {
        assert(body[j] == seg1[j]);
    }
    lemma_find_byte(body, AMPERSAND, k);
    assert(body.subrange(0, k) == seg1);
    assert(body.subrange(k + 1, body.len() as int) == seg2);
    lemma_find_byte(seg2, AMPERSAND, seg2.len() as int);
    lemma_form_step(body, k, name_key());
    lemma_form_step(body, k, email_key());
    lemma_form_step(seg2, seg2.len() as int, name_key());
    lemma_form_step(seg2, seg2.len() as int, email_key());
    assert(name_key() != email_key()) by {
        assert(name_key().len() != email_key().len());
    }
    assert(form_values(body, name_key()) == seq![nb]);
    assert(form_values(body, email_key()) == seq![eb]);
    encode_utf8_valid_utf8(name);
    encode_utf8_valid_utf8(email);
    encode_utf8_decode_utf8(name);
    encode_utf8_decode_utf8(email);
}

} // verus!
