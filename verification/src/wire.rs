use vstd::prelude::*;
use vstd::bytes::{lemma_auto_spec_u32_to_from_le_bytes, lemma_auto_spec_u64_to_from_le_bytes,
    spec_u32_from_le_bytes, spec_u32_to_le_bytes, spec_u64_from_le_bytes, spec_u64_to_le_bytes,
    u32_from_le_bytes, u32_to_le_bytes, u64_from_le_bytes, u64_to_le_bytes};
use vstd::utf8::{char_is_scalar, char_u32_cast, is_scalar};
use vstd::slice::slice_subrange;
use crate::kv::{assoc_map, lemma_assoc_map_push};
use crate::session::Session;
use crate::value::{SpecValue, Value};

verus! {

// The durable parts of a session travel as one framed byte string:
// the id, the expiry, and the data pairs, each length-prefixed.
// Numbers are 64-bit little-endian words; characters are their Unicode
// scalar values as 32-bit little-endian words.

pub const TAG_NULL: u64 = 0;

pub const TAG_BOOL: u64 = 1;

pub const TAG_INT: u64 = 2;

pub const TAG_STR: u64 = 3;

pub const TAG_EXPIRY_NONE: u64 = 0;

pub const TAG_EXPIRY_SOME: u64 = 1;

/// Relies on char::from_u32: the character with the given scalar value,
/// or nothing when the value is a surrogate or too large.
pub assume_specification[ char::from_u32 ](u: u32) -> (r: Option<char>)
    ensures
        r is Some <==> is_scalar(u),
        r matches Some(c) ==> c as u32 == u,
;

/// Relies on String::push: appends the character to the string.
pub assume_specification[ String::push ](s: &mut String, ch: char)
    ensures
        final(s)@ == old(s)@.push(ch),
;

pub open spec fn enc_u64(x: u64) -> Seq<u8> {
    spec_u64_to_le_bytes(x)
}

pub open spec fn enc_char(c: char) -> Seq<u8> {
    spec_u32_to_le_bytes(c as u32)
}

pub open spec fn enc_chars(s: Seq<char>) -> Seq<u8>
    decreases s.len(),
{
    if s.len() == 0 {
        Seq::empty()
    } else {
        enc_char(s[0]) + enc_chars(s.skip(1))
    }
}

pub open spec fn enc_str(s: Seq<char>) -> Seq<u8> {
    enc_u64(s.len() as u64) + enc_chars(s)
}

pub open spec fn enc_value(v: SpecValue) -> Seq<u8> {
    match v {
        SpecValue::Null => enc_u64(TAG_NULL),
        SpecValue::Bool(b) => enc_u64(TAG_BOOL) + enc_u64(if b {
            1u64
        } else {
            0u64
        }),
        SpecValue::Int(i) => enc_u64(TAG_INT) + enc_u64(i as u64),
        SpecValue::Str(s) => enc_u64(TAG_STR) + enc_str(s),
    }
}

pub open spec fn enc_entries(s: Seq<(Seq<char>, SpecValue)>) -> Seq<u8>
    decreases s.len(),
{
    if s.len() == 0 {
        Seq::empty()
    } else {
        enc_str(s[0].0) + enc_value(s[0].1) + enc_entries(s.skip(1))
    }
}

pub open spec fn enc_expiry(e: Option<i64>) -> Seq<u8> {
    match e {
        None => enc_u64(TAG_EXPIRY_NONE),
        Some(t) => enc_u64(TAG_EXPIRY_SOME) + enc_u64(t as u64),
    }
}

/// The full encoding of a session's durable parts.
pub open spec fn enc_session(
    id: Seq<char>,
    expiry: Option<i64>,
    data: Seq<(Seq<char>, SpecValue)>,
) -> Seq<u8> {
    enc_str(id) + enc_expiry(expiry) + enc_u64(data.len() as u64) + enc_entries(data)
}

pub open spec fn dec_u64(b: Seq<u8>, p: int) -> Option<(u64, int)> {
    if 0 <= p && p + 8 <= b.len() {
        Some((spec_u64_from_le_bytes(b.subrange(p, p + 8)), p + 8))
    } else {
        None
    }
}

pub open spec fn dec_char(b: Seq<u8>, p: int) -> Option<(char, int)> {
    if 0 <= p && p + 4 <= b.len() {
        let u = spec_u32_from_le_bytes(b.subrange(p, p + 4));
        if is_scalar(u) {
            Some((u as char, p + 4))
        } else {
            None
        }
    } else {
        None
    }
}

pub open spec fn dec_chars(b: Seq<u8>, p: int, n: nat) -> Option<(Seq<char>, int)>
    decreases n,
{
    if n == 0 {
        Some((Seq::empty(), p))
    } else {
        match dec_char(b, p) {
            Some((c, q)) => match dec_chars(b, q, (n - 1) as nat) {
                Some((s, r)) => Some((seq![c] + s, r)),
                None => None,
            },
            None => None,
        }
    }
}

pub open spec fn dec_str(b: Seq<u8>, p: int) -> Option<(Seq<char>, int)> {
    match dec_u64(b, p) {
        Some((n, q)) => dec_chars(b, q, n as nat),
        None => None,
    }
}

pub open spec fn dec_value(b: Seq<u8>, p: int) -> Option<(SpecValue, int)> {
    match dec_u64(b, p) {
        Some((tag, q)) => if tag == TAG_NULL {
            Some((SpecValue::Null, q))
        } else if tag == TAG_BOOL {
            match dec_u64(b, q) {
                Some((w, r)) => if w == 0 {
                    Some((SpecValue::Bool(false), r))
                } else if w == 1 {
                    Some((SpecValue::Bool(true), r))
                } else {
                    None
                },
                None => None,
            }
        } else if tag == TAG_INT {
            match dec_u64(b, q) {
                Some((w, r)) => Some((SpecValue::Int(w as i64), r)),
                None => None,
            }
        } else if tag == TAG_STR {
            match dec_str(b, q) {
                Some((s, r)) => Some((SpecValue::Str(s), r)),
                None => None,
            }
        } else {
            None
        },
        None => None,
    }
}

pub open spec fn dec_entries(b: Seq<u8>, p: int, n: nat) -> Option<
    (Seq<(Seq<char>, SpecValue)>, int),
>
    decreases n,
{
    if n == 0 {
        Some((Seq::empty(), p))
    } else {
        match dec_str(b, p) {
            Some((k, q)) => match dec_value(b, q) {
                Some((v, r)) => match dec_entries(b, r, (n - 1) as nat) {
                    Some((s, t)) => Some((seq![(k, v)] + s, t)),
                    None => None,
                },
                None => None,
            },
            None => None,
        }
    }
}

pub open spec fn dec_expiry(b: Seq<u8>, p: int) -> Option<(Option<i64>, int)> {
    match dec_u64(b, p) {
        Some((tag, q)) => if tag == TAG_EXPIRY_NONE {
            Some((None, q))
        } else if tag == TAG_EXPIRY_SOME {
            match dec_u64(b, q) {
                Some((w, r)) => Some((Some(w as i64), r)),
                None => None,
            }
        } else {
            None
        },
        None => None,
    }
}

/// What a whole buffer decodes to: the durable parts of a session, when
/// the buffer is exactly one well-formed encoding.
pub open spec fn dec_session(b: Seq<u8>) -> Option<
    (Seq<char>, Option<i64>, Seq<(Seq<char>, SpecValue)>),
> {
    match dec_str(b, 0) {
        Some((id, p1)) => match dec_expiry(b, p1) {
            Some((expiry, p2)) => match dec_u64(b, p2) {
                Some((n, p3)) => match dec_entries(b, p3, n as nat) {
                    Some((entries, p4)) => if p4 == b.len() {
                        Some((id, expiry, entries))
                    } else {
                        None
                    },
                    None => None,
                },
                None => None,
            },
            None => None,
        },
        None => None,
    }
}

/// A sequence length that fits the 64-bit length prefix.
pub open spec fn fits_word(n: nat) -> bool {
    n < 0x1_0000_0000_0000_0000
}

pub open spec fn value_len_ok(v: SpecValue) -> bool {
    match v {
        SpecValue::Str(s) => fits_word(s.len()),
        _ => true,
    }
}

pub open spec fn entries_len_ok(s: Seq<(Seq<char>, SpecValue)>) -> bool {
    forall|i: int| 0 <= i < s.len() ==> fits_word(#[trigger] s[i].0.len()) && value_len_ok(s[i].1)
}

proof fn lemma_subrange_concat(b: Seq<u8>, p: int, x: Seq<u8>, y: Seq<u8>)
    requires
        0 <= p,
        p + x.len() + y.len() <= b.len(),
        b.subrange(p, p + x.len() + y.len()) == x + y,
    ensures
        b.subrange(p, p + x.len()) == x,
        b.subrange(p + x.len(), p + x.len() + y.len()) == y,
{
    let whole = b.subrange(p, p + x.len() + y.len());
    assert forall|j: int| 0 <= j < x.len() implies b.subrange(p, p + x.len())[j] == x[j] by {
        assert(whole[j] == (x + y)[j]);
    }
    assert(b.subrange(p, p + x.len()) =~= x);
    assert forall|j: int| 0 <= j < y.len() implies b.subrange(
        p + x.len(),
        p + x.len() + y.len(),
    )[j] == y[j] by {
        assert(whole[x.len() + j] == (x + y)[x.len() + j]);
    }
    assert(b.subrange(p + x.len(), p + x.len() + y.len()) =~= y);
}

pub proof fn lemma_enc_chars_len(s: Seq<char>)
    ensures
        enc_chars(s).len() == 4 * s.len(),
    decreases s.len(),
{
    lemma_auto_spec_u32_to_from_le_bytes();
    if s.len() > 0 {
        lemma_enc_chars_len(s.skip(1));
    }
}

proof fn lemma_dec_u64_enc(b: Seq<u8>, p: int, x: u64)
    requires
        0 <= p,
        p + 8 <= b.len(),
        b.subrange(p, p + 8) == enc_u64(x),
    ensures
        dec_u64(b, p) == Some((x, p + 8)),
{
    lemma_auto_spec_u64_to_from_le_bytes();
}

proof fn lemma_dec_char_enc(b: Seq<u8>, p: int, c: char)
    requires
        0 <= p,
        p + 4 <= b.len(),
        b.subrange(p, p + 4) == enc_char(c),
    ensures
        dec_char(b, p) == Some((c, p + 4)),
{
    lemma_auto_spec_u32_to_from_le_bytes();
    char_is_scalar(c);
    let u = spec_u32_from_le_bytes(b.subrange(p, p + 4));
    assert(spec_u32_to_le_bytes(c as u32).len() == 4);
    assert(spec_u32_from_le_bytes(spec_u32_to_le_bytes(c as u32)) == c as u32);
    assert(u == c as u32);
    char_u32_cast(c, u);
}

proof fn lemma_dec_chars_enc(b: Seq<u8>, p: int, s: Seq<char>)
    requires
        0 <= p,
        p + 4 * s.len() <= b.len(),
        b.subrange(p, p + 4 * s.len()) == enc_chars(s),
    ensures
        dec_chars(b, p, s.len() as nat) == Some((s, p + 4 * s.len())),
    decreases s.len(),
{
    lemma_auto_spec_u32_to_from_le_bytes();
    if s.len() == 0 {
        assert(s =~= Seq::<char>::empty());
    } else {
        let head = enc_char(s[0]);
        let tail = enc_chars(s.skip(1));
        lemma_enc_chars_len(s.skip(1));
        assert(b.subrange(p, p + head.len() + tail.len()) == head + tail);
        lemma_subrange_concat(b, p, head, tail);
        lemma_dec_char_enc(b, p, s[0]);
        lemma_dec_chars_enc(b, p + 4, s.skip(1));
        assert(seq![s[0]] + s.skip(1) =~= s);
    }
}

proof fn lemma_dec_str_enc(b: Seq<u8>, p: int, s: Seq<char>)
    requires
        0 <= p,
        fits_word(s.len()),
        p + enc_str(s).len() <= b.len(),
        b.subrange(p, p + enc_str(s).len()) == enc_str(s),
    ensures
        dec_str(b, p) == Some((s, p + enc_str(s).len())),
        enc_str(s).len() == 8 + 4 * s.len(),
{
    lemma_auto_spec_u64_to_from_le_bytes();
    lemma_enc_chars_len(s);
    let head = enc_u64(s.len() as u64);
    let tail = enc_chars(s);
    assert(b.subrange(p, p + head.len() + tail.len()) == head + tail);
    lemma_subrange_concat(b, p, head, tail);
    lemma_dec_u64_enc(b, p, s.len() as u64);
    assert((s.len() as u64) as nat == s.len());
    lemma_dec_chars_enc(b, p + 8, s);
}

proof fn lemma_dec_value_enc(b: Seq<u8>, p: int, v: SpecValue)
    requires
        0 <= p,
        value_len_ok(v),
        p + enc_value(v).len() <= b.len(),
        b.subrange(p, p + enc_value(v).len()) == enc_value(v),
    ensures
        dec_value(b, p) == Some((v, p + enc_value(v).len())),
{
    lemma_auto_spec_u64_to_from_le_bytes();
    match v {
        SpecValue::Null => {
            lemma_dec_u64_enc(b, p, TAG_NULL);
        },
        SpecValue::Bool(x) => {
            let w: u64 = if x {
                1u64
            } else {
                0u64
            };
            let head = enc_u64(TAG_BOOL);
            let tail = enc_u64(w);
            assert(b.subrange(p, p + head.len() + tail.len()) == head + tail);
            lemma_subrange_concat(b, p, head, tail);
            lemma_dec_u64_enc(b, p, TAG_BOOL);
            lemma_dec_u64_enc(b, p + 8, w);
        },
        SpecValue::Int(i) => {
            let head = enc_u64(TAG_INT);
            let tail = enc_u64(i as u64);
            assert(b.subrange(p, p + head.len() + tail.len()) == head + tail);
            lemma_subrange_concat(b, p, head, tail);
            lemma_dec_u64_enc(b, p, TAG_INT);
            lemma_dec_u64_enc(b, p + 8, i as u64);
            assert(((i as u64) as i64) == i) by (bit_vector);
        },
        SpecValue::Str(s) => {
            let head = enc_u64(TAG_STR);
            let tail = enc_str(s);
            lemma_enc_chars_len(s);
            assert(b.subrange(p, p + head.len() + tail.len()) == head + tail);
            lemma_subrange_concat(b, p, head, tail);
            lemma_dec_u64_enc(b, p, TAG_STR);
            lemma_dec_str_enc(b, p + 8, s);
        },
    }
}

proof fn lemma_dec_expiry_enc(b: Seq<u8>, p: int, e: Option<i64>)
    requires
        0 <= p,
        p + enc_expiry(e).len() <= b.len(),
        b.subrange(p, p + enc_expiry(e).len()) == enc_expiry(e),
    ensures
        dec_expiry(b, p) == Some((e, p + enc_expiry(e).len())),
{
    lemma_auto_spec_u64_to_from_le_bytes();
    match e {
        None => {
            lemma_dec_u64_enc(b, p, TAG_EXPIRY_NONE);
        },
        Some(t) => {
            let head = enc_u64(TAG_EXPIRY_SOME);
            let tail = enc_u64(t as u64);
            assert(b.subrange(p, p + head.len() + tail.len()) == head + tail);
            lemma_subrange_concat(b, p, head, tail);
            lemma_dec_u64_enc(b, p, TAG_EXPIRY_SOME);
            lemma_dec_u64_enc(b, p + 8, t as u64);
            assert(((t as u64) as i64) == t) by (bit_vector);
        },
    }
}

proof fn lemma_dec_entries_enc(b: Seq<u8>, p: int, s: Seq<(Seq<char>, SpecValue)>)
    requires
        0 <= p,
        entries_len_ok(s),
        p + enc_entries(s).len() <= b.len(),
        b.subrange(p, p + enc_entries(s).len()) == enc_entries(s),
    ensures
        dec_entries(b, p, s.len() as nat) == Some((s, p + enc_entries(s).len())),
    decreases s.len(),
{
    if s.len() == 0 {
        assert(s =~= Seq::<(Seq<char>, SpecValue)>::empty());
    } else {
        let k = s[0].0;
        let v = s[0].1;
        let head = enc_str(k) + enc_value(v);
        let tail = enc_entries(s.skip(1));
        assert(enc_entries(s) == enc_str(k) + enc_value(v) + tail);
        assert(enc_str(k) + enc_value(v) + tail =~= head + tail);
        assert(b.subrange(p, p + head.len() + tail.len()) == head + tail);
        lemma_subrange_concat(b, p, head, tail);
        assert(b.subrange(p, p + enc_str(k).len() + enc_value(v).len()) == enc_str(k) + enc_value(
            v,
        ));
        lemma_subrange_concat(b, p, enc_str(k), enc_value(v));
        lemma_dec_str_enc(b, p, k);
        lemma_dec_value_enc(b, p + enc_str(k).len(), v);
        assert(entries_len_ok(s.skip(1))) by {
            assert forall|i: int| 0 <= i < s.skip(1).len() implies fits_word(
                #[trigger] s.skip(1)[i].0.len(),
            ) && value_len_ok(s.skip(1)[i].1) by {
                assert(s.skip(1)[i] == s[i + 1]);
            }
        }
        lemma_dec_entries_enc(b, p + head.len(), s.skip(1));
        assert(seq![(k, v)] + s.skip(1) =~= s);
    }
}

/// What `enc_session` writes, `dec_session` reads back exactly: the
/// codec loses nothing of a session's durable parts.
pub proof fn lemma_dec_session_enc(
    id: Seq<char>,
    expiry: Option<i64>,
    data: Seq<(Seq<char>, SpecValue)>,
)
    requires
        fits_word(id.len()),
        fits_word(data.len()),
        entries_len_ok(data),
    ensures
        dec_session(enc_session(id, expiry, data)) == Some((id, expiry, data)),
{
    lemma_auto_spec_u64_to_from_le_bytes();
    let b = enc_session(id, expiry, data);
    let a1 = enc_str(id);
    let a2 = enc_expiry(expiry);
    let a3 = enc_u64(data.len() as u64);
    let a4 = enc_entries(data);
    assert(b =~= (a1 + a2) + (a3 + a4));
    assert(b =~= a1 + (a2 + (a3 + a4)));
    assert(b.subrange(0, b.len() as int) =~= b);
    assert(b.subrange(0, a1.len() + (a2 + (a3 + a4)).len() as int) == a1 + (a2 + (a3 + a4)));
    lemma_subrange_concat(b, 0, a1, a2 + (a3 + a4));
    lemma_dec_str_enc(b, 0, id);
    let p1 = a1.len() as int;
    assert(b.subrange(p1, p1 + a2.len() + (a3 + a4).len()) == a2 + (a3 + a4));
    lemma_subrange_concat(b, p1, a2, a3 + a4);
    lemma_dec_expiry_enc(b, p1, expiry);
    let p2 = p1 + a2.len();
    assert(b.subrange(p2, p2 + a3.len() + a4.len()) == a3 + a4);
    lemma_subrange_concat(b, p2, a3, a4);
    lemma_dec_u64_enc(b, p2, data.len() as u64);
    let p3 = p2 + 8;
    assert((data.len() as u64) as nat == data.len());
    lemma_dec_entries_enc(b, p3, data);
    assert(p3 + a4.len() == b.len());
}

proof fn lemma_enc_chars_push(s: Seq<char>, c: char)
    ensures
        enc_chars(s.push(c)) == enc_chars(s) + enc_char(c),
    decreases s.len(),
{
    if s.len() == 0 {
        assert(s.push(c)[0] == c);
        assert(s.push(c).skip(1) =~= Seq::<char>::empty());
        assert(enc_chars(s.push(c)) == enc_char(c) + enc_chars(Seq::<char>::empty()));
        assert(enc_char(c) + Seq::<u8>::empty() =~= enc_char(c));
        assert(enc_chars(s) + enc_char(c) =~= enc_char(c));
    } else {
        lemma_enc_chars_push(s.skip(1), c);
        assert(s.push(c)[0] == s[0]);
        assert(s.push(c).skip(1) =~= s.skip(1).push(c));
        assert(enc_chars(s.push(c)) == enc_char(s[0]) + enc_chars(s.skip(1).push(c)));
        assert(enc_chars(s) == enc_char(s[0]) + enc_chars(s.skip(1)));
        assert(enc_char(s[0]) + (enc_chars(s.skip(1)) + enc_char(c)) =~= (enc_char(s[0])
            + enc_chars(s.skip(1))) + enc_char(c));
    }
}

proof fn lemma_enc_entries_push(s: Seq<(Seq<char>, SpecValue)>, k: Seq<char>, v: SpecValue)
    ensures
        enc_entries(s.push((k, v))) == enc_entries(s) + (enc_str(k) + enc_value(v)),
    decreases s.len(),
{
    if s.len() == 0 {
        assert(s.push((k, v))[0] == (k, v));
        assert(s.push((k, v)).skip(1) =~= Seq::<(Seq<char>, SpecValue)>::empty());
        assert(enc_entries(s.push((k, v))) == enc_str(k) + enc_value(v) + enc_entries(
            Seq::<(Seq<char>, SpecValue)>::empty(),
        ));
        assert(enc_str(k) + enc_value(v) + Seq::<u8>::empty() =~= enc_str(k) + enc_value(v));
        assert(enc_entries(s) + (enc_str(k) + enc_value(v)) =~= enc_str(k) + enc_value(v));
    } else {
        lemma_enc_entries_push(s.skip(1), k, v);
        assert(s.push((k, v))[0] == s[0]);
        assert(s.push((k, v)).skip(1) =~= s.skip(1).push((k, v)));
        let h = enc_str(s[0].0) + enc_value(s[0].1);
        assert(enc_entries(s.push((k, v))) == h + (enc_entries(s.skip(1)) + (enc_str(k)
            + enc_value(v))));
        assert(h + (enc_entries(s.skip(1)) + (enc_str(k) + enc_value(v))) =~= (h + enc_entries(
            s.skip(1),
        )) + (enc_str(k) + enc_value(v)));
        assert(enc_entries(s) == h + enc_entries(s.skip(1)));
    }
}

fn push_u64(out: &mut Vec<u8>, x: u64)
    ensures
        final(out)@ == old(out)@ + enc_u64(x),
{
    let mut bs = u64_to_le_bytes(x);
    out.append(&mut bs);
}

fn push_char(out: &mut Vec<u8>, c: char)
    ensures
        final(out)@ == old(out)@ + enc_char(c),
{
    let mut bs = u32_to_le_bytes(c as u32);
    out.append(&mut bs);
}

/// Collects the characters of a string slice.
fn str_to_chars(s: &str) -> (v: Vec<char>)
    ensures
        v@ == s@,
{
    let mut it = s.chars();
    let mut v: Vec<char> = Vec::new();
    loop
        invariant_except_break
            vstd::std_specs::iter::IteratorSpec::decrease(&it) is Some,
            v@ + vstd::std_specs::iter::IteratorSpec::remaining(&it) == s@,
        ensures
            v@ == s@,
        decreases vstd::std_specs::iter::IteratorSpec::decrease(&it)->0,
    {
        match it.next() {
            Some(c) => {
                v.push(c);
            },
            None => {
                break ;
            },
        }
    }
    v
}

fn push_chars(out: &mut Vec<u8>, chars: &Vec<char>)
    ensures
        final(out)@ == old(out)@ + enc_chars(chars@),
{
    let ghost base = out@;
    let mut i: usize = 0;
    while i < chars.len()
        invariant
            i <= chars@.len(),
            out@ == base + enc_chars(chars@.take(i as int)),
        decreases chars@.len() - i,
    {
        let ghost pre = out@;
        push_char(out, chars[i]);
        proof {
            lemma_enc_chars_push(chars@.take(i as int), chars@[i as int]);
            assert(chars@.take(i as int).push(chars@[i as int]) =~= chars@.take(i as int + 1));
            assert((base + enc_chars(chars@.take(i as int))) + enc_char(chars@[i as int]) =~= base
                + (enc_chars(chars@.take(i as int)) + enc_char(chars@[i as int])));
        }
        i = i + 1;
    }
    proof {
        assert(chars@.take(chars@.len() as int) =~= chars@);
    }
}

fn push_str(out: &mut Vec<u8>, s: &str)
    ensures
        final(out)@ == old(out)@ + enc_str(s@),
{
    let chars = str_to_chars(s);
    push_u64(out, chars.len() as u64);
    push_chars(out, &chars);
    proof {
        assert((old(out)@ + enc_u64(s@.len() as u64)) + enc_chars(s@) =~= old(out)@ + (enc_u64(
            s@.len() as u64,
        ) + enc_chars(s@)));
    }
}

fn push_value(out: &mut Vec<u8>, v: &Value)
    ensures
        final(out)@ == old(out)@ + enc_value(v@),
{
    match v {
        Value::Null => {
            push_u64(out, TAG_NULL);
        },
        Value::Bool(b) => {
            push_u64(out, TAG_BOOL);
            push_u64(
                out,
                if *b {
                    1u64
                } else {
                    0u64
                },
            );
            proof {
                assert((old(out)@ + enc_u64(TAG_BOOL)) + enc_u64(
                    if v@ matches SpecValue::Bool(true) {
                        1u64
                    } else {
                        0u64
                    },
                ) =~= old(out)@ + enc_value(v@));
            }
        },
        Value::Int(i) => {
            push_u64(out, TAG_INT);
            push_u64(out, *i as u64);
            proof {
                assert(final(out)@ =~= old(out)@ + enc_value(v@));
            }
        },
        Value::Str(s) => {
            push_u64(out, TAG_STR);
            push_str(out, s.as_str());
            proof {
                assert(final(out)@ =~= old(out)@ + enc_value(v@));
            }
        },
    }
}

/// Encodes the durable parts of a session: its id, expiry and data.
pub fn encode_session(session: &Session) -> (r: Vec<u8>)
    ensures
        r@ == enc_session(session@.id, session@.expiry, session@.data),
{
    let mut out: Vec<u8> = Vec::new();
    push_str(&mut out, session.id());
    match session.expiry() {
        None => {
            push_u64(&mut out, TAG_EXPIRY_NONE);
        },
        Some(t) => {
            push_u64(&mut out, TAG_EXPIRY_SOME);
            push_u64(&mut out, t as u64);
            proof {
                assert(out@ =~= enc_str(session@.id) + enc_expiry(session@.expiry));
            }
        },
    }
    proof {
        assert(out@ =~= enc_str(session@.id) + enc_expiry(session@.expiry));
    }
    let entries = session.data();
    push_u64(&mut out, entries.len() as u64);
    let ghost base = out@;
    let ghost dv = session@.data;
    let mut i: usize = 0;
    while i < entries.len()
        invariant
            i <= entries@.len(),
            dv == crate::session::entries_view(entries@),
            dv.len() == entries@.len(),
            out@ == base + enc_entries(dv.take(i as int)),
        decreases entries@.len() - i,
    {
        push_str(&mut out, entries[i].0.as_str());
        push_value(&mut out, &entries[i].1);
        proof {
            let k = dv[i as int].0;
            let v = dv[i as int].1;
            assert(entries@[i as int].0@ == k && entries@[i as int].1@ == v);
            lemma_enc_entries_push(dv.take(i as int), k, v);
            assert(dv.take(i as int).push((k, v)) =~= dv.take(i as int + 1));
            assert(((base + enc_entries(dv.take(i as int))) + enc_str(k)) + enc_value(v) =~= base
                + (enc_entries(dv.take(i as int)) + (enc_str(k) + enc_value(v))));
        }
        i = i + 1;
    }
    proof {
        assert(dv.take(dv.len() as int) =~= dv);
        assert(out@ =~= enc_session(session@.id, session@.expiry, session@.data));
    }
    out
}

fn read_u64(bytes: &Vec<u8>, pos: usize) -> (r: Option<(u64, usize)>)
    ensures
        match r {
            Some(p) => dec_u64(bytes@, pos as int) == Some((p.0, p.1 as int)),
            None => dec_u64(bytes@, pos as int) is None,
        },
{
    if pos <= bytes.len() && bytes.len() - pos >= 8 {
        let sl = slice_subrange(bytes.as_slice(), pos, pos + 8);
        let x = u64_from_le_bytes(sl);
        Some((x, pos + 8))
    } else {
        None
    }
}

fn read_char(bytes: &Vec<u8>, pos: usize) -> (r: Option<(char, usize)>)
    ensures
        match r {
            Some(p) => dec_char(bytes@, pos as int) == Some((p.0, p.1 as int)),
            None => dec_char(bytes@, pos as int) is None,
        },
{
    if pos <= bytes.len() && bytes.len() - pos >= 4 {
        let sl = slice_subrange(bytes.as_slice(), pos, pos + 4);
        let u = u32_from_le_bytes(sl);
        match char::from_u32(u) {
            Some(c) => {
                proof {
                    char_u32_cast(c, u);
                }
                Some((c, pos + 4))
            },
            None => None,
        }
    } else {
        None
    }
}

fn read_string(bytes: &Vec<u8>, pos: usize) -> (r: Option<(String, usize)>)
    ensures
        match r {
            Some(p) => dec_str(bytes@, pos as int) == Some((p.0@, p.1 as int)),
            None => dec_str(bytes@, pos as int) is None,
        },
{
    let (n, start) = match read_u64(bytes, pos) {
        Some(p) => p,
        None => {
            return None;
        },
    };
    let mut s = String::new();
    let mut q = start;
    let mut i: u64 = 0;
    while i < n
        invariant
            i <= n,
            dec_u64(bytes@, pos as int) == Some((n, start as int)),
            dec_chars(bytes@, start as int, n as nat) == (match dec_chars(
                bytes@,
                q as int,
                (n - i) as nat,
            ) {
                Some(p) => Some((s@ + p.0, p.1)),
                None => None::<(Seq<char>, int)>,
            }),
        decreases n - i,
    {
        let ghost q_pre = q as int;
        let ghost s_pre = s@;
        match read_char(bytes, q) {
            Some(p) => {
                let (c, q1) = p;
                s.push(c);
                q = q1;
                proof {
                    let rest = (n - i - 1) as nat;
                    assert(dec_chars(bytes@, q_pre, (n - i) as nat) == (match dec_chars(
                        bytes@,
                        q1 as int,
                        rest,
                    ) {
                        Some(t) => Some((seq![c] + t.0, t.1)),
                        None => None::<(Seq<char>, int)>,
                    }));
                    let dd = dec_chars(bytes@, q1 as int, rest);
                    if dd is Some {
                        let t = dd->0;
                        assert(s_pre + (seq![c] + t.0) =~= (s_pre + seq![c]) + t.0);
                        assert(s@ =~= s_pre + seq![c]);
                    }
                }
                i = i + 1;
            },
            None => {
                proof {
                    assert(dec_chars(bytes@, q as int, (n - i) as nat) is None);
                }
                return None;
            },
        }
    }
    proof {
        assert(dec_chars(bytes@, q as int, 0) == Some((Seq::<char>::empty(), q as int)));
        assert(s@ + Seq::<char>::empty() =~= s@);
    }
    Some((s, q))
}

fn read_value(bytes: &Vec<u8>, pos: usize) -> (r: Option<(Value, usize)>)
    ensures
        match r {
            Some(p) => dec_value(bytes@, pos as int) == Some((p.0@, p.1 as int)),
            None => dec_value(bytes@, pos as int) is None,
        },
{
    let (tag, q) = match read_u64(bytes, pos) {
        Some(p) => p,
        None => {
            return None;
        },
    };
    if tag == TAG_NULL {
        Some((Value::Null, q))
    } else if tag == TAG_BOOL {
        match read_u64(bytes, q) {
            Some(p) => {
                let (w, r2) = p;
                if w == 0 {
                    Some((Value::Bool(false), r2))
                } else if w == 1 {
                    Some((Value::Bool(true), r2))
                } else {
                    None
                }
            },
            None => None,
        }
    } else if tag == TAG_INT {
        match read_u64(bytes, q) {
            Some(p) => Some((Value::Int(p.0 as i64), p.1)),
            None => None,
        }
    } else if tag == TAG_STR {
        match read_string(bytes, q) {
            Some(p) => Some((Value::Str(p.0), p.1)),
            None => None,
        }
    } else {
        None
    }
}

fn read_expiry(bytes: &Vec<u8>, pos: usize) -> (r: Option<(Option<i64>, usize)>)
    ensures
        match r {
            Some(p) => dec_expiry(bytes@, pos as int) == Some((p.0, p.1 as int)),
            None => dec_expiry(bytes@, pos as int) is None,
        },
{
    let (tag, q) = match read_u64(bytes, pos) {
        Some(p) => p,
        None => {
            return None;
        },
    };
    if tag == TAG_EXPIRY_NONE {
        Some((None, q))
    } else if tag == TAG_EXPIRY_SOME {
        match read_u64(bytes, q) {
            Some(p) => Some((Some(p.0 as i64), p.1)),
            None => None,
        }
    } else {
        None
    }
}

/// Decodes a whole buffer back into a session: the id, expiry and data
/// the buffer encodes, rehydrated with no cookie value and nothing
/// marked; nothing when the buffer is not exactly one well-formed
/// encoding.
pub fn decode_session(bytes: &Vec<u8>) -> (r: Option<Session>)
    ensures
        match r {
            Some(s) => {
                &&& s.wf()
                &&& (dec_session(bytes@) matches Some(parts) && s@.id == parts.0 && s@.expiry
                    == parts.1 && s@.data_map() == assoc_map(parts.2))
                &&& s@.cookie_value is None
                &&& s@.data_changed == false
                &&& s@.destroy == false
            },
            None => dec_session(bytes@) is None,
        },
{
    let (id, p1) = match read_string(bytes, 0) {
        Some(p) => p,
        None => {
            return None;
        },
    };
    let (expiry, p2) = match read_expiry(bytes, p1) {
        Some(p) => p,
        None => {
            return None;
        },
    };
    let (count, p3) = match read_u64(bytes, p2) {
        Some(p) => p,
        None => {
            return None;
        },
    };
    let mut session = Session::from_parts(id, Vec::new(), expiry);
    let ghost acc0: Seq<(Seq<char>, SpecValue)> = Seq::empty();
    let ghost mut acc = acc0;
    let mut p = p3;
    let mut i: u64 = 0;
    proof {
        assert(crate::session::entries_view(Seq::<(String, Value)>::empty()) =~= acc0);
    }
    while i < count
        invariant
            i <= count,
            session.wf(),
            dec_str(bytes@, 0) matches Some(q1) && dec_expiry(bytes@, q1.1) matches Some(q2)
                && dec_u64(bytes@, q2.1) matches Some(q3) && q1.0 == session@.id && q2.0
                == session@.expiry && q3.0 == count && q3.1 == p3 as int,
            session@.cookie_value is None,
            session@.destroy == false,
            session@.data_map() == assoc_map(acc),
            dec_entries(bytes@, p3 as int, count as nat) == (match dec_entries(
                bytes@,
                p as int,
                (count - i) as nat,
            ) {
                Some(t) => Some((acc + t.0, t.1)),
                None => None::<(Seq<(Seq<char>, SpecValue)>, int)>,
            }),
        decreases count - i,
    {
        let ghost p_pre = p as int;
        let ghost acc_pre = acc;
        let (k, q1) = match read_string(bytes, p) {
            Some(x) => x,
            None => {
                return None;
            },
        };
        let (v, q2) = match read_value(bytes, q1) {
            Some(x) => x,
            None => {
                return None;
            },
        };
        session.insert_value(k.as_str(), v);
        p = q2;
        proof {
            acc = acc.push((k@, v@));
            lemma_assoc_map_push(acc_pre, k@, v@);
            let rest = (count - i - 1) as nat;
            assert(dec_entries(bytes@, p_pre, (count - i) as nat) == (match dec_entries(
                bytes@,
                q2 as int,
                rest,
            ) {
                Some(t) => Some((seq![(k@, v@)] + t.0, t.1)),
                None => None::<(Seq<(Seq<char>, SpecValue)>, int)>,
            }));
            let dd = dec_entries(bytes@, q2 as int, rest);
            if dd is Some {
                let t = dd->0;
                assert(acc_pre + (seq![(k@, v@)] + t.0) =~= (acc_pre + seq![(k@, v@)]) + t.0);
                assert(acc =~= acc_pre + seq![(k@, v@)]);
            }
        }
        i = i + 1;
    }
    proof {
        assert(dec_entries(bytes@, p as int, 0) == Some(
            (Seq::<(Seq<char>, SpecValue)>::empty(), p as int),
        ));
        assert(acc + Seq::<(Seq<char>, SpecValue)>::empty() =~= acc);
    }
    if p != bytes.len() {
        return None;
    }
    session.reset_data_changed();
    Some(session)
}

} // verus!
