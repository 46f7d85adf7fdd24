//! How the fields of a request are fed into the hash state from which its
//! fingerprint is taken. Every field is written on its own, a text behind
//! its length, so that the fields of one request can never run together into
//! the fields of another.

use std::collections::hash_map::DefaultHasher;
use std::hash::Hasher;
use vstd::bytes::{spec_u64_to_le_bytes, u64_to_le_bytes};
use vstd::prelude::*;
use vstd::std_specs::hash::DefaultHasherAdditionalSpecFns;
use vstd::utf8::encode_utf8;

verus! {

/// The digest that the hash state gives once `writes` have gone into it, in
/// that order.
pub open spec fn digest(writes: Seq<Seq<u8>>) -> u64 {
    DefaultHasher::spec_finish(writes)
}

/// What a flag feeds: one byte, 1 for set and 0 for clear.
pub open spec fn flag_writes(flag: bool) -> Seq<Seq<u8>> {
    seq![seq![if flag { 1u8 } else { 0u8 }]]
}

/// What a number feeds: its eight bytes, the lowest first.
pub open spec fn number_writes(n: u64) -> Seq<Seq<u8>> {
    seq![spec_u64_to_le_bytes(n)]
}

/// What a text feeds: the length of its UTF-8 form, then that form.
pub open spec fn text_writes(text: Seq<char>) -> Seq<Seq<u8>> {
    seq![spec_u64_to_le_bytes(encode_utf8(text).len() as u64), encode_utf8(text)]
}

/// What an optional text feeds: a clear flag for none, a set flag and the
/// text otherwise.
pub open spec fn optional_text_writes(text: Option<Seq<char>>) -> Seq<Seq<u8>> {
    match text {
        None => flag_writes(false),
        Some(text) => flag_writes(true) + text_writes(text),
    }
}

/// What a colour feeds: its three channels in one write.
pub open spec fn color_writes(color: (u8, u8, u8)) -> Seq<Seq<u8>> {
    seq![seq![color.0, color.1, color.2]]
}

/// Feeds a flag.
pub fn feed_flag(state: &mut DefaultHasher, flag: bool)
    ensures
        final(state)@ == old(state)@ + flag_writes(flag),
{
    let mut bytes: Vec<u8> = Vec::new();
    bytes.push(if flag { 1u8 } else { 0u8 });
    state.write(bytes.as_slice());
    assert(bytes@ =~= flag_writes(flag)[0]);
    assert(state@ =~= old(state)@ + flag_writes(flag));
}

/// Feeds a number.
pub fn feed_number(state: &mut DefaultHasher, n: u64)
    ensures
        final(state)@ == old(state)@ + number_writes(n),
{
    let bytes = u64_to_le_bytes(n);
    state.write(bytes.as_slice());
    assert(state@ =~= old(state)@ + number_writes(n));
}

/// Feeds a text.
pub fn feed_text(state: &mut DefaultHasher, text: &str)
    ensures
        final(state)@ == old(state)@ + text_writes(text@),
{
    let bytes = text.as_bytes();
    feed_number(state, bytes.len() as u64);
    state.write(bytes);
    assert(state@ =~= old(state)@ + text_writes(text@));
}

/// Feeds an optional text.
pub fn feed_optional_text(state: &mut DefaultHasher, text: &Option<String>)
    ensures
        final(state)@ == old(state)@ + optional_text_writes(
            match text {
                Some(text) => Some(text@),
                None => None,
            },
        ),
{
    match text {
        None => feed_flag(state, false),
        Some(text) => {
            feed_flag(state, true);
            feed_text(state, text.as_str());
            assert(state@ =~= old(state)@ + (flag_writes(true) + text_writes(text@)));
        },
    }
}

/// Feeds a colour.
pub fn feed_color(state: &mut DefaultHasher, color: (u8, u8, u8))
    ensures
        final(state)@ == old(state)@ + color_writes(color),
{
    let mut bytes: Vec<u8> = Vec::new();
    bytes.push(color.0);
    bytes.push(color.1);
    bytes.push(color.2);
    state.write(bytes.as_slice());
    assert(bytes@ =~= color_writes(color)[0]);
    assert(state@ =~= old(state)@ + color_writes(color));
}

/// Two sequences that begin with pieces of one length and are the same as a
/// whole have the same piece at the front and the same rest behind it.
pub proof fn lemma_split_alike<T>(p: Seq<T>, q: Seq<T>, rest_p: Seq<T>, rest_q: Seq<T>)
    requires
        p + rest_p == q + rest_q,
        p.len() == q.len(),
    ensures
        p == q,
        rest_p == rest_q,
{
    let whole_p = p + rest_p;
    let whole_q = q + rest_q;
    assert(whole_p.len() == p.len() + rest_p.len());
    assert(whole_q.len() == q.len() + rest_q.len());
    assert forall|i: int| 0 <= i < p.len() implies p[i] == q[i] by {
        assert(whole_p[i] == p[i]);
        assert(whole_q[i] == q[i]);
    }
    assert(p =~= q);
    assert forall|i: int| 0 <= i < rest_p.len() implies rest_p[i] == rest_q[i] by {
        assert(whole_p[p.len() + i] == rest_p[i]);
        assert(whole_q[q.len() + i] == rest_q[i]);
    }
    assert(rest_p =~= rest_q);
}

/// Pieces that are fed one after the other can be taken together either way.
pub proof fn lemma_regroup<T>(p: Seq<T>, x: Seq<T>, rest: Seq<T>)
    ensures
        (p + x) + rest == p + (x + rest),
{
    assert((p + x) + rest =~= p + (x + rest));
}

/// What a flag feeds tells the flag, whatever is fed behind it.
pub proof fn lemma_flag_is_told(a: bool, b: bool, rest_a: Seq<Seq<u8>>, rest_b: Seq<Seq<u8>>)
    requires
        flag_writes(a) + rest_a == flag_writes(b) + rest_b,
    ensures
        a == b,
        rest_a == rest_b,
{
    lemma_split_alike(flag_writes(a), flag_writes(b), rest_a, rest_b);
    assert(flag_writes(a)[0][0] == flag_writes(b)[0][0]);
}

/// What a number feeds tells the number, whatever is fed behind it.
pub proof fn lemma_number_is_told(a: u64, b: u64, rest_a: Seq<Seq<u8>>, rest_b: Seq<Seq<u8>>)
    requires
        number_writes(a) + rest_a == number_writes(b) + rest_b,
    ensures
        a == b,
        rest_a == rest_b,
{
    lemma_split_alike(number_writes(a), number_writes(b), rest_a, rest_b);
    assert(number_writes(a)[0] == number_writes(b)[0]);
    vstd::bytes::lemma_auto_spec_u64_to_from_le_bytes();
}

/// What a text feeds tells the text, whatever is fed behind it.
pub proof fn lemma_text_is_told(
    a: Seq<char>,
    b: Seq<char>,
    rest_a: Seq<Seq<u8>>,
    rest_b: Seq<Seq<u8>>,
)
    requires
        text_writes(a) + rest_a == text_writes(b) + rest_b,
    ensures
        a == b,
        rest_a == rest_b,
{
    lemma_split_alike(text_writes(a), text_writes(b), rest_a, rest_b);
    assert(text_writes(a)[1] == text_writes(b)[1]);
    vstd::utf8::encode_utf8_decode_utf8(a);
    vstd::utf8::encode_utf8_decode_utf8(b);
}

/// What an optional text feeds tells whether there is a text, and which,
/// whatever is fed behind it.
pub proof fn lemma_optional_text_is_told(
    a: Option<Seq<char>>,
    b: Option<Seq<char>>,
    rest_a: Seq<Seq<u8>>,
    rest_b: Seq<Seq<u8>>,
)
    requires
        optional_text_writes(a) + rest_a == optional_text_writes(b) + rest_b,
    ensures
        a == b,
        rest_a == rest_b,
{
    let whole_a = optional_text_writes(a) + rest_a;
    let whole_b = optional_text_writes(b) + rest_b;
    assert(whole_a[0] == optional_text_writes(a)[0]);
    assert(whole_b[0] == optional_text_writes(b)[0]);
    assert(optional_text_writes(a)[0][0] == optional_text_writes(b)[0][0]);
    match (a, b) {
        (Some(x), Some(y)) => {
            assert(whole_a =~= flag_writes(true) + (text_writes(x) + rest_a));
            assert(whole_b =~= flag_writes(true) + (text_writes(y) + rest_b));
            lemma_flag_is_told(true, true, text_writes(x) + rest_a, text_writes(y) + rest_b);
            lemma_text_is_told(x, y, rest_a, rest_b);
        },
        (None, None) => {
            lemma_flag_is_told(false, false, rest_a, rest_b);
        },
        _ => {},
    }
}

/// What a colour feeds tells the colour, whatever is fed behind it.
pub proof fn lemma_color_is_told(
    a: (u8, u8, u8),
    b: (u8, u8, u8),
    rest_a: Seq<Seq<u8>>,
    rest_b: Seq<Seq<u8>>,
)
    requires
        color_writes(a) + rest_a == color_writes(b) + rest_b,
    ensures
        a == b,
        rest_a == rest_b,
{
    lemma_split_alike(color_writes(a), color_writes(b), rest_a, rest_b);
    let x = color_writes(a)[0];
    let y = color_writes(b)[0];
    assert(x[0] == y[0] && x[1] == y[1] && x[2] == y[2]);
}

} // verus!
