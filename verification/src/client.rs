use vstd::prelude::*;

use crate::failure::{Failure, FailureView};
use crate::json::Json;
use crate::text::{chars_of, decimal, decimal_text, holds_text, lemma_holds_between, same};

verus! {

/// A text without the slashes at its end.
pub open spec fn without_slashes(s: Seq<char>) -> Seq<char>
    decreases s.len(),
{
    if s.len() > 0 && s.last() == '/' {
        without_slashes(s.drop_last())
    } else {
        s
    }
}

/// The address of a path under an API base.
pub fn url(base: &str, path: &str) -> (r: String)
    ensures
        r@ == without_slashes(base@) + path@,
{
    let mut n: usize = base.unicode_len();
    assert(base@.take(n as int) =~= base@);
    while n > 0 && base.get_char(n - 1) == '/'
        invariant
            n <= base@.len(),
            without_slashes(base@) == without_slashes(base@.take(n as int)),
        decreases n,
    {
        assert(base@.take(n as int).drop_last() =~= base@.take(n as int - 1));
        n = n - 1;
    }
    base.substring_char(0, n).to_owned().concat(path)
}

/// The text two records deep in an error payload, or a stand-in.
pub open spec fn error_field<N>(
    body: Json<N>,
    key: Seq<char>,
    default: Seq<char>,
) -> Seq<char> {
    match body.inner("error"@, key) {
        Some(v) => match v.as_text() {
            Some(s) => s,
            None => default,
        },
        None => default,
    }
}

fn field_or<'a, N>(body: &'a Json<N>, key: &str, default: &'a str) -> (r: &'a str)
    ensures
        r@ == error_field(*body, key@, default@),
{
    let found = match body.get_inner("error", key) {
        Some(v) => v.text(),
        None => None,
    };
    match found {
        Some(s) => s,
        None => default,
    }
}

/// What an answer that is no success means: a bad or missing right to the call, a
/// thing that is not there, a limit, or any other upstream failure.
pub open spec fn failure_of<N>(status: u16, body: Json<N>, retry_after: Option<Seq<char>>) -> FailureView {
    let code = error_field(body, "code"@, "unknown"@);
    let message = error_field(body, "message"@, "no error message"@);
    if status == 401 {
        FailureView::Auth("invalid or revoked API key ("@ + code + "): "@ + message)
    } else if status == 403 {
        FailureView::Auth(
            "forbidden ("@ + code + "): "@ + message
                + " — if this is a trading call, enable Trading on your API key"@,
        )
    } else if status == 404 {
        FailureView::NotFound(code + ": "@ + message)
    } else if status == 429 {
        FailureView::Upstream(
            "rate limited ("@ + code + "): "@ + message + (match retry_after {
                Some(s) => " — retry after "@ + s + "s"@,
                None => Seq::empty(),
            }),
        )
    } else {
        FailureView::Upstream(
            "HTTP "@ + decimal_text(status as nat) + " ("@ + code + "): "@ + message,
        )
    }
}

/// Map the API's error contract onto the kinds of failure.
pub fn failure_for<N>(status: u16, body: &Json<N>, retry_after: Option<&str>) -> (r: Failure)
    ensures
        r@ == failure_of(status, *body, chars_of(retry_after)),
{
    let code = field_or(body, "code", "unknown");
    let message = field_or(body, "message", "no error message");
    if status == 401 {
        Failure::Auth(
            "invalid or revoked API key (".to_owned().concat(code).concat("): ").concat(message),
        )
    } else if status == 403 {
        Failure::Auth(
            "forbidden (".to_owned().concat(code).concat("): ").concat(message).concat(
                " — if this is a trading call, enable Trading on your API key",
            ),
        )
    } else if status == 404 {
        Failure::NotFound(code.to_owned().concat(": ").concat(message))
    } else if status == 429 {
        let text = "rate limited (".to_owned().concat(code).concat("): ").concat(message);
        Failure::Upstream(
            match retry_after {
                Some(s) => {
                    let tail = " — retry after ".to_owned().concat(s).concat("s");
                    text.concat(&tail)
                },
                None => {
                    assert(text@ + Seq::<char>::empty() =~= text@);
                    text
                },
            },
        )
    } else {
        Failure::Upstream(
            "HTTP ".to_owned().concat(&decimal(status as u128)).concat(" (").concat(code).concat(
                "): ",
            ).concat(message),
        )
    }
}

pub open spec fn missing_key_text() -> Seq<char> {
    "no API key stored — run `lofty auth login`"@
}

/// An authenticated call needs a stored key.
pub fn require_key(stored: Option<String>) -> (r: Result<String, Failure>)
    ensures
        match crate::text::owned_chars(stored) {
            Some(key) => r matches Ok(k) && k@ == key,
            None => r matches Err(e) && e@ == FailureView::Auth(missing_key_text()),
        },
{
    match stored {
        Some(key) => Ok(key),
        None => Err(Failure::Auth("no API key stored — run `lofty auth login`".to_owned())),
    }
}

/// Whether a method changes something upstream, so that its request needs an
/// idempotency key.
pub open spec fn writes(method: Seq<char>) -> bool {
    method == "POST"@ || method == "PUT"@ || method == "PATCH"@ || method == "DELETE"@
}

pub fn is_write(method: &str) -> (r: bool)
    ensures
        r == writes(method@),
{
    same(method, "POST") || same(method, "PUT") || same(method, "PATCH") || same(method, "DELETE")
}

/// One round of the generator behind idempotency keys.
pub open spec fn stirred(seed: u128) -> u128 {
    let a = seed ^ (seed << 13);
    let b = a ^ (a >> 7);
    b ^ (b << 17)
}

pub fn stir(seed: u128) -> (r: u128)
    ensures
        r == stirred(seed),
{
    let a: u128 = seed ^ (seed << 13);
    let b: u128 = a ^ (a >> 7);
    b ^ (b << 17)
}

/// The lowest eight bytes of a number, lowest first.
pub open spec fn low_bytes(n: u128) -> Seq<u8> {
    Seq::new(8, |i: int| (n >> ((8 * i) as u128)) as u8)
}

/// The sixteen bytes of a key: two rounds of the generator, eight bytes each.
pub open spec fn raw_key(seed: u128) -> Seq<u8> {
    low_bytes(stirred(seed)) + low_bytes(stirred(stirred(seed)))
}

/// The bytes with the version and the variant of a random UUID put in.
pub open spec fn marked_key(seed: u128) -> Seq<u8> {
    let b = raw_key(seed);
    b.update(6, (b[6] & 0x0f) | 0x40).update(8, (b[8] & 0x3f) | 0x80)
}

pub open spec fn hex_digit(n: u8) -> char {
    if n < 10 {
        (48 + n) as char
    } else {
        (87 + n) as char
    }
}

/// Some bytes in lower-case hexadecimal.
pub open spec fn hex_text(bytes: Seq<u8>) -> Seq<char>
    decreases bytes.len(),
{
    if bytes.len() == 0 {
        Seq::empty()
    } else {
        hex_text(bytes.drop_last()).push(hex_digit(bytes.last() / 16)).push(
            hex_digit(bytes.last() % 16),
        )
    }
}

/// The idempotency key grown from a seed.
pub open spec fn key_text(seed: u128) -> Seq<char> {
    let b = marked_key(seed);
    hex_text(b.subrange(0, 4)) + "-"@ + hex_text(b.subrange(4, 6)) + "-"@ + hex_text(
        b.subrange(6, 8),
    ) + "-"@ + hex_text(b.subrange(8, 10)) + "-"@ + hex_text(b.subrange(10, 16))
}

fn hex_str(n: u8) -> (r: &'static str)
    requires
        n < 16,
    ensures
        r@ == seq![hex_digit(n)],
{
    proof {
        reveal_strlit("0");
        reveal_strlit("1");
        reveal_strlit("2");
        reveal_strlit("3");
        reveal_strlit("4");
        reveal_strlit("5");
        reveal_strlit("6");
        reveal_strlit("7");
        reveal_strlit("8");
        reveal_strlit("9");
        reveal_strlit("a");
        reveal_strlit("b");
        reveal_strlit("c");
        reveal_strlit("d");
        reveal_strlit("e");
        reveal_strlit("f");
    }
    let r: &'static str = match n {
        0 => "0",
        1 => "1",
        2 => "2",
        3 => "3",
        4 => "4",
        5 => "5",
        6 => "6",
        7 => "7",
        8 => "8",
        9 => "9",
        10 => "a",
        11 => "b",
        12 => "c",
        13 => "d",
        14 => "e",
        _ => "f",
    };
    assert(r@ =~= seq![hex_digit(n)]);
    r
}

fn hex(bytes: &Vec<u8>, from: usize, to: usize) -> (r: String)
    requires
        from <= to <= bytes.len(),
    ensures
        r@ == hex_text(bytes@.subrange(from as int, to as int)),
{
    let mut out = String::new();
    let mut i: usize = from;
    assert(out@ =~= hex_text(bytes@.subrange(from as int, from as int)));
    while i < to
        invariant
            from <= i <= to <= bytes.len(),
            out@ == hex_text(bytes@.subrange(from as int, i as int)),
        decreases to - i,
    {
        let b: u8 = bytes[i];
        let ghost next = bytes@.subrange(from as int, i as int + 1);
        assert(next.drop_last() =~= bytes@.subrange(from as int, i as int));
        assert(next.last() == b);
        out = out.concat(hex_str(b / 16)).concat(hex_str(b % 16));
        assert(out@ =~= hex_text(next));
        i = i + 1;
    }
    out
}

fn push_low_bytes(bytes: &mut Vec<u8>, n: u128)
    ensures
        final(bytes)@ == old(bytes)@ + low_bytes(n),
{
    let ghost start = bytes@;
    let mut i: u128 = 0;
    while i < 8
        invariant
            i <= 8,
            bytes@ == start + low_bytes(n).take(i as int),
        decreases 8 - i,
    {
        bytes.push((n >> (8 * i)) as u8);
        i = i + 1;
        assert(bytes@ =~= start + low_bytes(n).take(i as int));
    }
    assert(low_bytes(n).take(8) =~= low_bytes(n));
}

/// A key in the shape of a random UUID, grown from a seed. Keys only need to
/// differ from each other, so the seed carries the time and the process.
pub fn idempotency_key(seed: u128) -> (r: String)
    ensures
        r@ == key_text(seed),
{
    let first: u128 = stir(seed);
    let second: u128 = stir(first);
    let mut b: Vec<u8> = Vec::new();
    push_low_bytes(&mut b, first);
    push_low_bytes(&mut b, second);
    assert(b@ =~= raw_key(seed));
    let v: u8 = b[6];
    b.set(6, (v & 0x0f) | 0x40);
    let w: u8 = b[8];
    b.set(8, (w & 0x3f) | 0x80);
    assert(b@ =~= marked_key(seed));
    hex(&b, 0, 4).concat("-").concat(&hex(&b, 4, 6)).concat("-").concat(&hex(&b, 6, 8)).concat(
        "-",
    ).concat(&hex(&b, 8, 10)).concat("-").concat(&hex(&b, 10, 16))
}

proof fn lemma_hex_shape(bytes: Seq<u8>)
    ensures
        hex_text(bytes).len() == 2 * bytes.len(),
        forall|i: int|
            0 <= i < bytes.len() ==> hex_text(bytes)[2 * i] == hex_digit(#[trigger] bytes[i] / 16)
                && hex_text(bytes)[2 * i + 1] == hex_digit(bytes[i] % 16),
    decreases bytes.len(),
{
    if bytes.len() > 0 {
        let head = bytes.drop_last();
        lemma_hex_shape(head);
        assert forall|i: int| 0 <= i < bytes.len() implies hex_text(bytes)[2 * i] == hex_digit(
            #[trigger] bytes[i] / 16,
        ) && hex_text(bytes)[2 * i + 1] == hex_digit(bytes[i] % 16) by {
            if i < head.len() {
                assert(head[i] == bytes[i]);
            }
        }
    }
}

pub open spec fn is_hex(c: char) -> bool {
    ('0' <= c && c <= '9') || ('a' <= c && c <= 'f')
}

proof fn lemma_hex_digits(bytes: Seq<u8>)
    ensures
        forall|i: int| 0 <= i < hex_text(bytes).len() ==> is_hex(#[trigger] hex_text(bytes)[i]),
    decreases bytes.len(),
{
    if bytes.len() > 0 {
        let head = hex_text(bytes.drop_last());
        let all = hex_text(bytes);
        lemma_hex_digits(bytes.drop_last());
        let b = bytes.last();
        assert(is_hex(hex_digit(b / 16)) && is_hex(hex_digit(b % 16)));
        assert forall|i: int| 0 <= i < all.len() implies is_hex(#[trigger] all[i]) by {
            if i < head.len() {
                assert(all[i] == head[i]);
            }
        }
    }
}

/// Every idempotency key has the shape of a version 4 UUID: thirty-six characters
/// in groups of 8, 4, 4, 4 and 12 lower-case hexadecimal digits, the version in its
/// place, and a variant digit of 8, 9, a or b.
pub proof fn keys_are_uuid_shaped(seed: u128)
    ensures
        key_text(seed).len() == 36,
        key_text(seed)[8] == '-',
        key_text(seed)[13] == '-',
        key_text(seed)[18] == '-',
        key_text(seed)[23] == '-',
        key_text(seed)[14] == '4',
        key_text(seed)[19] == '8' || key_text(seed)[19] == '9' || key_text(seed)[19] == 'a'
            || key_text(seed)[19] == 'b',
        forall|i: int|
            0 <= i < 36 && i != 8 && i != 13 && i != 18 && i != 23 ==> is_hex(
                #[trigger] key_text(seed)[i],
            ),
{
    let b = marked_key(seed);
    reveal_strlit("-");
    lemma_hex_shape(b.subrange(0, 4));
    lemma_hex_shape(b.subrange(4, 6));
    lemma_hex_shape(b.subrange(6, 8));
    lemma_hex_shape(b.subrange(8, 10));
    lemma_hex_shape(b.subrange(10, 16));
    let v = raw_key(seed)[6];
    let w = raw_key(seed)[8];
    assert(((v & 0x0f) | 0x40) / 16 == 4) by (bit_vector);
    assert(8 <= ((w & 0x3f) | 0x80) / 16 <= 11) by (bit_vector);
    assert(b.subrange(6, 8)[0] == (v & 0x0f) | 0x40);
    assert(b.subrange(8, 10)[0] == (w & 0x3f) | 0x80);
    lemma_hex_digits(b.subrange(0, 4));
    lemma_hex_digits(b.subrange(4, 6));
    lemma_hex_digits(b.subrange(6, 8));
    lemma_hex_digits(b.subrange(8, 10));
    lemma_hex_digits(b.subrange(10, 16));
}

/// Two rounds of the generator tell seeds with one upper half apart, even without
/// the bits that the version and the variant replace.
proof fn lemma_rounds_tell_seeds_apart(a: u128, b: u128)
    by (bit_vector)
    requires
        a >> 64 == b >> 64,
        ({
            let a1 = a ^ (a << 13);
            let a2 = a1 ^ (a1 >> 7);
            let a3 = a2 ^ (a2 << 17);
            let a4 = a3 ^ (a3 << 13);
            let a5 = a4 ^ (a4 >> 7);
            let a6 = a5 ^ (a5 << 17);
            let b1 = b ^ (b << 13);
            let b2 = b1 ^ (b1 >> 7);
            let b3 = b2 ^ (b2 << 17);
            let b4 = b3 ^ (b3 << 13);
            let b5 = b4 ^ (b4 >> 7);
            let b6 = b5 ^ (b5 << 17);
            &&& a3 & 0xff0f_ffff_ffff_ffff == b3 & 0xff0f_ffff_ffff_ffff
            &&& a6 & 0xffff_ffff_ffff_ff3f == b6 & 0xffff_ffff_ffff_ff3f
        }),
    ensures
        a == b,
{
}

/// A round takes each bit of its result from bits at most seven places above it.
proof fn lemma_round_looks_seven_up(a: u128, b: u128, low: u128, lower: u128)
    requires
        low == 0x3fff_ffff_ffff_ffff_ffff && lower == 0x7f_ffff_ffff_ffff_ffff || low
            == 0x7f_ffff_ffff_ffff_ffff && lower == 0xffff_ffff_ffff_ffff,
        a & low == b & low,
    ensures
        stirred(a) & lower == stirred(b) & lower,
{
    let (a1, b1) = (a ^ (a << 13), b ^ (b << 13));
    let (a2, b2) = (a1 ^ (a1 >> 7), b1 ^ (b1 >> 7));
    assert(a1 & low == b1 & low) by (bit_vector)
        requires
            a & low == b & low,
            low == 0x3fff_ffff_ffff_ffff_ffff && lower == 0x7f_ffff_ffff_ffff_ffff || low
                == 0x7f_ffff_ffff_ffff_ffff && lower == 0xffff_ffff_ffff_ffff,
            a1 == a ^ (a << 13),
            b1 == b ^ (b << 13),
    ;
    assert(a2 & lower == b2 & lower) by (bit_vector)
        requires
            a1 & low == b1 & low,
            low == 0x3fff_ffff_ffff_ffff_ffff && lower == 0x7f_ffff_ffff_ffff_ffff || low
                == 0x7f_ffff_ffff_ffff_ffff && lower == 0xffff_ffff_ffff_ffff,
            a2 == a1 ^ (a1 >> 7),
            b2 == b1 ^ (b1 >> 7),
    ;
    assert((a2 ^ (a2 << 17)) & lower == (b2 ^ (b2 << 17)) & lower) by (bit_vector)
        requires
            a2 & lower == b2 & lower,
            low == 0x3fff_ffff_ffff_ffff_ffff && lower == 0x7f_ffff_ffff_ffff_ffff || low
                == 0x7f_ffff_ffff_ffff_ffff && lower == 0xffff_ffff_ffff_ffff,
    ;
}

proof fn lemma_first_round_bytes(x: u128, y: u128)
    by (bit_vector)
    requires
        (x >> 0) as u8 == (y >> 0) as u8,
        (x >> 8) as u8 == (y >> 8) as u8,
        (x >> 16) as u8 == (y >> 16) as u8,
        (x >> 24) as u8 == (y >> 24) as u8,
        (x >> 32) as u8 == (y >> 32) as u8,
        (x >> 40) as u8 == (y >> 40) as u8,
        (x >> 56) as u8 == (y >> 56) as u8,
        ((x >> 48) as u8) & 0x0f == ((y >> 48) as u8) & 0x0f,
    ensures
        x & 0xff0f_ffff_ffff_ffff == y & 0xff0f_ffff_ffff_ffff,
{
}

proof fn lemma_second_round_bytes(x: u128, y: u128)
    by (bit_vector)
    requires
        (x >> 8) as u8 == (y >> 8) as u8,
        (x >> 16) as u8 == (y >> 16) as u8,
        (x >> 24) as u8 == (y >> 24) as u8,
        (x >> 32) as u8 == (y >> 32) as u8,
        (x >> 40) as u8 == (y >> 40) as u8,
        (x >> 48) as u8 == (y >> 48) as u8,
        (x >> 56) as u8 == (y >> 56) as u8,
        (x as u8) & 0x3f == (y as u8) & 0x3f,
    ensures
        x & 0xffff_ffff_ffff_ff3f == y & 0xffff_ffff_ffff_ff3f,
{
}

proof fn lemma_same_low_bytes(x: u128, y: u128)
    requires
        x & 0xffff_ffff_ffff_ffff == y & 0xffff_ffff_ffff_ffff,
    ensures
        low_bytes(x) == low_bytes(y),
{
    assert forall|i: int| 0 <= i < 8 implies low_bytes(x)[i] == low_bytes(y)[i] by {
        let s: u128 = (8 * i) as u128;
        assert((x >> s) as u8 == (y >> s) as u8) by (bit_vector)
            requires
                x & 0xffff_ffff_ffff_ffff == y & 0xffff_ffff_ffff_ffff,
                s <= 56,
        ;
    }
    assert(low_bytes(x) =~= low_bytes(y));
}

proof fn lemma_hex_is_faithful(a: Seq<u8>, b: Seq<u8>)
    requires
        a.len() == b.len(),
        hex_text(a) == hex_text(b),
    ensures
        a == b,
{
    lemma_hex_shape(a);
    lemma_hex_shape(b);
    assert forall|i: int| 0 <= i < a.len() implies a[i] == b[i] by {
        assert(hex_digit(a[i] / 16) == hex_digit(b[i] / 16));
        assert(hex_digit(a[i] % 16) == hex_digit(b[i] % 16));
    }
    assert(a =~= b);
}

proof fn lemma_key_is_its_bytes(a: u128, b: u128)
    requires
        key_text(a) == key_text(b),
    ensures
        marked_key(a) == marked_key(b),
{
    let x = marked_key(a);
    let y = marked_key(b);
    reveal_strlit("-");
    lemma_key_parts(a);
    lemma_key_parts(b);
    lemma_hex_is_faithful(x.subrange(0, 4), y.subrange(0, 4));
    lemma_hex_is_faithful(x.subrange(4, 6), y.subrange(4, 6));
    lemma_hex_is_faithful(x.subrange(6, 8), y.subrange(6, 8));
    lemma_hex_is_faithful(x.subrange(8, 10), y.subrange(8, 10));
    lemma_hex_is_faithful(x.subrange(10, 16), y.subrange(10, 16));
    assert(x =~= x.subrange(0, 4) + x.subrange(4, 6) + x.subrange(6, 8) + x.subrange(8, 10)
        + x.subrange(10, 16));
    assert(y =~= y.subrange(0, 4) + y.subrange(4, 6) + y.subrange(6, 8) + y.subrange(8, 10)
        + y.subrange(10, 16));
}

/// Where the groups of a key stand.
proof fn lemma_key_parts(seed: u128)
    ensures
        ({
            let b = marked_key(seed);
            let k = key_text(seed);
            &&& b.len() == 16
            &&& k.subrange(0, 8) == hex_text(b.subrange(0, 4))
            &&& k.subrange(9, 13) == hex_text(b.subrange(4, 6))
            &&& k.subrange(14, 18) == hex_text(b.subrange(6, 8))
            &&& k.subrange(19, 23) == hex_text(b.subrange(8, 10))
            &&& k.subrange(24, 36) == hex_text(b.subrange(10, 16))
        }),
{
    let b = marked_key(seed);
    let k = key_text(seed);
    reveal_strlit("-");
    lemma_hex_shape(b.subrange(0, 4));
    lemma_hex_shape(b.subrange(4, 6));
    lemma_hex_shape(b.subrange(6, 8));
    lemma_hex_shape(b.subrange(8, 10));
    lemma_hex_shape(b.subrange(10, 16));
    assert(k.subrange(0, 8) =~= hex_text(b.subrange(0, 4)));
    assert(k.subrange(9, 13) =~= hex_text(b.subrange(4, 6)));
    assert(k.subrange(14, 18) =~= hex_text(b.subrange(6, 8)));
    assert(k.subrange(19, 23) =~= hex_text(b.subrange(8, 10)));
    assert(k.subrange(24, 36) =~= hex_text(b.subrange(10, 16)));
}

/// Two different seeds with one upper half never grow the same key. A seed carries
/// the process above its lower sixty-four bits, so no two seeds of one process
/// share a key.
pub proof fn seeds_of_one_process_grow_different_keys(a: u128, b: u128)
    requires
        a != b,
        a >> 64 == b >> 64,
    ensures
        key_text(a) != key_text(b),
{
    if key_text(a) == key_text(b) {
        lemma_key_is_its_bytes(a, b);
        let (x, y) = (stirred(a), stirred(b));
        let (u, v) = (stirred(x), stirred(y));
        let (m, n) = (marked_key(a), marked_key(b));
        assert(forall|i: int| 0 <= i < 16 ==> #[trigger] m[i] == n[i]);
        let (p, q) = (raw_key(a)[6], raw_key(b)[6]);
        assert(m[6] == n[6]);
        assert(p & 0x0f == q & 0x0f) by (bit_vector)
            requires
                (p & 0x0f) | 0x40 == (q & 0x0f) | 0x40,
        ;
        let (r, s) = (raw_key(a)[8], raw_key(b)[8]);
        assert(m[8] == n[8]);
        assert(r & 0x3f == s & 0x3f) by (bit_vector)
            requires
                (r & 0x3f) | 0x80 == (s & 0x3f) | 0x80,
        ;
        assert(m[0] == n[0] && m[1] == n[1] && m[2] == n[2] && m[3] == n[3] && m[4] == n[4] && m[5]
            == n[5] && m[7] == n[7]);
        lemma_first_round_bytes(x, y);
        assert(m[9] == n[9] && m[10] == n[10] && m[11] == n[11] && m[12] == n[12] && m[13] == n[13]
            && m[14] == n[14] && m[15] == n[15]);
        assert(u >> 0 == u && v >> 0 == v) by (bit_vector);
        lemma_second_round_bytes(u, v);
        lemma_rounds_tell_seeds_apart(a, b);
    }
}

/// Seeds that differ only from the seventy-eighth bit on grow one key: past there a
/// seed does not count.
pub proof fn high_bits_of_a_seed_do_not_count(a: u128, b: u128)
    requires
        a & 0x3fff_ffff_ffff_ffff_ffff == b & 0x3fff_ffff_ffff_ffff_ffff,
    ensures
        key_text(a) == key_text(b),
{
    lemma_round_looks_seven_up(
        a,
        b,
        0x3fff_ffff_ffff_ffff_ffff,
        0x7f_ffff_ffff_ffff_ffff,
    );
    lemma_round_looks_seven_up(
        stirred(a),
        stirred(b),
        0x7f_ffff_ffff_ffff_ffff,
        0xffff_ffff_ffff_ffff,
    );
    let (x, y) = (stirred(a), stirred(b));
    assert(x & 0xffff_ffff_ffff_ffff == y & 0xffff_ffff_ffff_ffff) by (bit_vector)
        requires
            x & 0x7f_ffff_ffff_ffff_ffff == y & 0x7f_ffff_ffff_ffff_ffff,
    ;
    lemma_same_low_bytes(x, y);
    lemma_same_low_bytes(stirred(x), stirred(y));
}

/// An address joins its base and its path with the slashes at the end of the base left
/// out, and nothing else.
pub proof fn only_slashes_are_left_out(base: Seq<char>)
    ensures
        ({
            let kept = without_slashes(base);
            &&& kept.len() <= base.len()
            &&& kept == base.take(kept.len() as int)
            &&& kept.len() > 0 ==> kept.last() != '/'
            &&& forall|i: int| kept.len() <= i < base.len() ==> #[trigger] base[i] == '/'
        }),
    decreases base.len(),
{
    if base.len() > 0 && base.last() == '/' {
        let head = base.drop_last();
        only_slashes_are_left_out(head);
        let kept = without_slashes(base);
        assert(kept =~= base.take(kept.len() as int));
        assert forall|i: int| kept.len() <= i < base.len() implies #[trigger] base[i] == '/' by {
            if i < head.len() {
                assert(head[i] == base[i]);
            }
        }
    } else {
        assert(base =~= base.take(base.len() as int));
    }
}

/// The status tells what kind of failure an answer is: a refused key or a forbidden
/// call is one of rights, a missing thing is not found, and all else is upstream. The
/// message holds what the API says went wrong, and its code for it.
pub proof fn the_status_tells_the_kind_of_failure<N>(
    status: u16,
    body: Json<N>,
    retry_after: Option<Seq<char>>,
)
    ensures
        ({
            let e = failure_of(status, body, retry_after);
            let said = |key: Seq<char>| body.inner("error"@, key);
            &&& e is Auth <==> status == 401 || status == 403
            &&& e is NotFound <==> status == 404
            &&& e is Upstream <==> status != 401 && status != 403 && status != 404
            &&& said("code"@) is Some && said("code"@)->0.as_text() is Some ==> holds_text(
                e.text(),
                said("code"@)->0.as_text()->0,
            )
            &&& said("message"@) is Some && said("message"@)->0.as_text() is Some ==> holds_text(
                e.text(),
                said("message"@)->0.as_text()->0,
            )
            &&& said("message"@) is None ==> holds_text(e.text(), "no error message"@)
        }),
{
    let code = error_field(body, "code"@, "unknown"@);
    let message = error_field(body, "message"@, "no error message"@);
    let none = Seq::<char>::empty();
    let whole = failure_of(status, body, retry_after).text();
    if status == 401 {
        let (a, b) = ("invalid or revoked API key ("@, "): "@);
        assert(whole =~= a + code + (b + message));
        lemma_holds_between(a, code, b + message);
        assert(whole =~= (a + code + b) + message + none);
        lemma_holds_between(a + code + b, message, none);
    } else if status == 403 {
        let (a, b) = ("forbidden ("@, "): "@);
        let c = " — if this is a trading call, enable Trading on your API key"@;
        assert(whole =~= a + code + (b + message + c));
        lemma_holds_between(a, code, b + message + c);
        assert(whole =~= (a + code + b) + message + c);
        lemma_holds_between(a + code + b, message, c);
    } else if status == 404 {
        assert(whole =~= none + code + (": "@ + message));
        lemma_holds_between(none, code, ": "@ + message);
        assert(whole =~= (code + ": "@) + message + none);
        lemma_holds_between(code + ": "@, message, none);
    } else if status == 429 {
        let (a, b) = ("rate limited ("@, "): "@);
        let c = match retry_after {
            Some(s) => " — retry after "@ + s + "s"@,
            None => Seq::empty(),
        };
        assert(whole =~= a + code + (b + message + c));
        lemma_holds_between(a, code, b + message + c);
        assert(whole =~= (a + code + b) + message + c);
        lemma_holds_between(a + code + b, message, c);
    } else {
        let a = "HTTP "@ + decimal_text(status as nat) + " ("@;
        let b = "): "@;
        assert(whole =~= a + code + (b + message));
        lemma_holds_between(a, code, b + message);
        assert(whole =~= (a + code + b) + message + none);
        lemma_holds_between(a + code + b, message, none);
    }
}

/// How long to wait is told where the calls are limited, and nowhere else.
pub proof fn only_a_limit_says_how_long_to_wait<N>(status: u16, body: Json<N>, wait: Seq<char>)
    ensures
        status == 429 ==> failure_of(status, body, Some(wait)).text() == failure_of(
            status,
            body,
            None,
        ).text() + " — retry after "@ + wait + "s"@,
        status != 429 ==> failure_of(status, body, Some(wait)) == failure_of(status, body, None),
{
    if status == 429 {
        assert(failure_of(status, body, Some(wait)).text() =~= failure_of(
            status,
            body,
            None,
        ).text() + " — retry after "@ + wait + "s"@);
    }
}

/// Exactly these methods change something upstream.
pub proof fn four_methods_change_something(method: Seq<char>)
    ensures
        writes(method) <==> seq!["POST"@, "PUT"@, "PATCH"@, "DELETE"@].contains(method),
{
    let all = seq!["POST"@, "PUT"@, "PATCH"@, "DELETE"@];
    assert(all[0] == "POST"@ && all[1] == "PUT"@ && all[2] == "PATCH"@ && all[3] == "DELETE"@);
}

} // verus!
