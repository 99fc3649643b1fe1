//! Reading a record's document back: what a consumer finds in it that asks
//! for the required members and for none of the optional ones.

use crate::datatypes::{Endpoint, FrameStatus, FrameStatusResult, LogEntry};
use crate::encoding::{
    decimal, escape, escape_byte, hex_byte, hex_digits, hex_lower, joined, member_text,
    member_texts, padded, quoted, ratio_text, trimmed, Field, BACKSLASH, COLON, COMMA,
    FRACTION_DIGITS, FRACTION_SCALE, POINT, QUOTE, ZERO,
};
use crate::mqtt::{Message, MqttBackend};
use crate::wire::{
    airtime_text, bool_text, endpoint_token, field, frame_status_fields, frame_status_text,
    lemma_bare_record_omits_optional_members, lemma_fields_are_required_then_optional,
    log_entry_fields, log_entry_text, optional_values, required_fields, result_token,
    rfc3339_text, uuid_text, wire_form, with_optional, SerializeError,
};
use vstd::prelude::*;
use vstd::utf8::{
    decode_utf8, encode_utf8, encode_utf8_decode_utf8, is_ascii_chars, is_ascii_chars_encode_utf8,
};

verus! {

/// The byte that a two-byte escape stands for, by its second byte.
pub open spec fn short_escape(c: u8) -> Option<u8> {
    if c == QUOTE {
        Some(QUOTE)
    } else if c == BACKSLASH {
        Some(BACKSLASH)
    } else if c == 0x62 {
        Some(0x08u8)
    } else if c == 0x74 {
        Some(0x09u8)
    } else if c == 0x6e {
        Some(0x0au8)
    } else if c == 0x66 {
        Some(0x0cu8)
    } else if c == 0x72 {
        Some(0x0du8)
    } else {
        None
    }
}

/// The value of a lowercase hexadecimal digit.
pub open spec fn hex_value(c: u8) -> Option<int> {
    if 0x30 <= c <= 0x39 {
        Some(c - 0x30)
    } else if 0x61 <= c <= 0x66 {
        Some(c - 0x57)
    } else {
        None
    }
}

/// A reading with one more byte in front of what was read.
pub open spec fn after(b: u8, reading: Option<(Seq<u8>, Seq<u8>)>) -> Option<(Seq<u8>, Seq<u8>)> {
    match reading {
        Some((value, rest)) => Some((seq![b] + value, rest)),
        None => None,
    }
}

/// Reads the inside of a quoted string up to its closing quote: the bytes
/// that it stands for, and what follows the quote. There is no reading where
/// the string does not end or holds what no string may hold.
pub open spec fn read_to_quote(s: Seq<u8>) -> Option<(Seq<u8>, Seq<u8>)>
    decreases s.len(),
{
    if s.len() == 0 {
        None
    } else if s[0] == QUOTE {
        Some((Seq::empty(), s.skip(1)))
    } else if s[0] == BACKSLASH {
        if s.len() < 2 {
            None
        } else if short_escape(s[1]) is Some {
            after(short_escape(s[1])->Some_0, read_to_quote(s.skip(2)))
        } else if s.len() >= 6 && s[1] == 0x75 && s[2] == ZERO && s[3] == ZERO && hex_value(s[4])
            is Some && hex_value(s[5]) is Some {
            after(
                (16 * hex_value(s[4])->Some_0 + hex_value(s[5])->Some_0) as u8,
                read_to_quote(s.skip(6)),
            )
        } else {
            None
        }
    } else if s[0] < 0x20 {
        None
    } else {
        after(s[0], read_to_quote(s.skip(1)))
    }
}

/// Reads a quoted string: the bytes that it stands for, and what follows it.
pub open spec fn read_string(s: Seq<u8>) -> Option<(Seq<u8>, Seq<u8>)> {
    if s.len() > 0 && s[0] == QUOTE {
        read_to_quote(s.skip(1))
    } else {
        None
    }
}

/// Escaping goes byte by byte, so it can be taken apart anywhere.
pub proof fn lemma_escape_concat(a: Seq<u8>, b: Seq<u8>)
    ensures
        escape(a + b) == escape(a) + escape(b),
    decreases b.len(),
{
    if b.len() == 0 {
        assert(a + b =~= a);
        assert(escape(a) + escape(b) =~= escape(a));
    } else {
        lemma_escape_concat(a, b.drop_last());
        assert((a + b).drop_last() =~= a + b.drop_last());
        assert((a + b).last() == b.last());
        assert(escape(a + b) =~= escape(a) + escape(b));
    }
}

proof fn lemma_escape_front(x: Seq<u8>)
    requires
        x.len() > 0,
    ensures
        escape(x) == escape_byte(x[0]) + escape(x.skip(1)),
{
    let head = seq![x[0]];
    assert(x =~= head + x.skip(1));
    lemma_escape_concat(head, x.skip(1));
    assert(head.drop_last() =~= Seq::<u8>::empty());
    assert(escape(head) =~= escape_byte(x[0])) by {
        assert(escape(head.drop_last()) =~= Seq::<u8>::empty());
    }
}

/// What was escaped is read back as it was, and the reading stops behind the
/// closing quote.
pub proof fn lemma_read_to_quote(x: Seq<u8>, rest: Seq<u8>)
    ensures
        read_to_quote(escape(x) + seq![QUOTE] + rest) == Some((x, rest)),
    decreases x.len(),
{
    let s = escape(x) + seq![QUOTE] + rest;
    if x.len() == 0 {
        assert(escape(x) =~= Seq::<u8>::empty());
        assert(s[0] == QUOTE);
        assert(s.skip(1) =~= rest);
        assert(x =~= Seq::<u8>::empty());
    } else {
        let b = x[0];
        let tail = x.skip(1);
        let next = escape(tail) + seq![QUOTE] + rest;
        lemma_escape_front(x);
        lemma_read_to_quote(tail, rest);
        let code = escape_byte(b);
        assert(s =~= code + next);
        assert(s.skip(code.len() as int) =~= next);
        assert(seq![b] + tail =~= x);
        assert(forall|i: int| 0 <= i < code.len() ==> s[i] == code[i]);
        if b == QUOTE || b == BACKSLASH || b == 0x08 || b == 0x09 || b == 0x0a || b == 0x0c || b
            == 0x0d {
            assert(code.len() == 2);
            assert(s[0] == code[0] && s[1] == code[1]);
            assert(short_escape(s[1]) == Some(b));
        } else if b < 0x20 {
            assert(code.len() == 6);
            assert(s[0] == code[0] && s[1] == code[1] && s[2] == code[2] && s[3] == code[3] && s[4]
                == code[4] && s[5] == code[5]);
            assert(short_escape(s[1]) is None);
            assert(hex_value(hex_byte(b as int / 16)) == Some(b as int / 16));
            assert(hex_value(hex_byte(b as int % 16)) == Some(b as int % 16));
        } else {
            assert(code.len() == 1);
            assert(s[0] == b);
        }
    }
}

/// A quoted text is read back as its bytes, whatever follows it.
pub proof fn lemma_read_string(text: Seq<char>, rest: Seq<u8>)
    ensures
        read_string(quoted(text) + rest) == Some((encode_utf8(text), rest)),
{
    let s = quoted(text) + rest;
    let inner = escape(encode_utf8(text)) + seq![QUOTE] + rest;
    assert(s[0] == QUOTE);
    assert(s.skip(1) =~= inner);
    lemma_read_to_quote(encode_utf8(text), rest);
}

/// Reads one given byte: what follows it.
pub open spec fn read_byte(s: Seq<u8>, b: u8) -> Option<Seq<u8>> {
    if s.len() > 0 && s[0] == b {
        Some(s.skip(1))
    } else {
        None
    }
}

/// Reads the name `key` of a member and the colon behind it: what follows.
pub open spec fn read_key(s: Seq<u8>, key: Seq<char>) -> Option<Seq<u8>> {
    match read_string(s) {
        Some((name, rest)) => if name == encode_utf8(key) {
            read_byte(rest, COLON)
        } else {
            None
        },
        None => None,
    }
}

/// Reads the member `key` whose value is a string: its text, and what
/// follows the member.
pub open spec fn read_text_member(s: Seq<u8>, key: Seq<char>) -> Option<(Seq<char>, Seq<u8>)> {
    match read_key(s, key) {
        Some(value) => match read_string(value) {
            Some((bytes, rest)) => Some((decode_utf8(bytes), rest)),
            None => None,
        },
        None => None,
    }
}

/// The name of a member and its colon are read back, whatever follows.
pub proof fn lemma_read_key(key: Seq<char>, rest: Seq<u8>)
    ensures
        read_key(quoted(key) + seq![COLON] + rest, key) == Some(rest),
{
    let s = quoted(key) + seq![COLON] + rest;
    let behind = seq![COLON] + rest;
    assert(s =~= quoted(key) + behind);
    lemma_read_string(key, behind);
    assert(behind[0] == COLON);
    assert(behind.skip(1) =~= rest);
}

/// A member whose value is a quoted text is read back as that text.
pub proof fn lemma_read_text_member(key: Seq<char>, text: Seq<char>, rest: Seq<u8>)
    ensures
        read_text_member(member_text(field(key, quoted(text))) + rest, key) == Some((text, rest)),
{
    let s = member_text(field(key, quoted(text))) + rest;
    let value = quoted(text) + rest;
    assert(s =~= quoted(key) + seq![COLON] + value);
    lemma_read_key(key, value);
    lemma_read_string(text, rest);
    encode_utf8_decode_utf8(text);
}

/// The bytes that a number is written with.
pub open spec fn is_number_byte(b: u8) -> bool {
    (0x30 <= b <= 0x39) || b == POINT
}

/// Every byte is one that a number is written with.
pub open spec fn is_number_text(t: Seq<u8>) -> bool {
    forall|i: int| 0 <= i < t.len() ==> is_number_byte(#[trigger] t[i])
}

/// Reads a number: the bytes as far as they belong to one, and what follows.
pub open spec fn read_number(s: Seq<u8>) -> (Seq<u8>, Seq<u8>)
    decreases s.len(),
{
    if s.len() > 0 && is_number_byte(s[0]) {
        let r = read_number(s.skip(1));
        (seq![s[0]] + r.0, r.1)
    } else {
        (Seq::empty(), s)
    }
}

/// A number is read back as it was written, up to the first byte that
/// belongs to no number.
pub proof fn lemma_read_number(t: Seq<u8>, rest: Seq<u8>)
    requires
        is_number_text(t),
        rest.len() == 0 || !is_number_byte(rest[0]),
    ensures
        read_number(t + rest) == (t, rest),
    decreases t.len(),
{
    let s = t + rest;
    if t.len() == 0 {
        assert(s =~= rest);
        assert(t =~= Seq::<u8>::empty());
    } else {
        assert(s[0] == t[0]);
        assert(s.skip(1) =~= t.skip(1) + rest);
        lemma_read_number(t.skip(1), rest);
        assert(seq![t[0]] + t.skip(1) =~= t);
    }
}

proof fn lemma_decimal_is_number(v: nat)
    ensures
        is_number_text(decimal(v)),
        decimal(v).len() > 0,
    decreases v,
{
    if v >= 10 {
        lemma_decimal_is_number(v / 10);
    }
}

proof fn lemma_padded_is_number(v: nat, width: nat)
    ensures
        is_number_text(padded(v, width)),
    decreases width,
{
    if width > 0 {
        lemma_padded_is_number(v / 10, (width - 1) as nat);
    }
}

proof fn lemma_trimmed_is_number(digits: Seq<u8>)
    requires
        is_number_text(digits),
    ensures
        is_number_text(trimmed(digits)),
    decreases digits.len(),
{
    if digits.len() > 1 && digits.last() == ZERO {
        lemma_trimmed_is_number(digits.drop_last());
    }
}

/// A quotient is written with the bytes of a number and with at least one.
pub proof fn lemma_ratio_text_is_number(numerator: nat, denominator: nat)
    ensures
        is_number_text(ratio_text(numerator, denominator)),
        ratio_text(numerator, denominator).len() > 0,
{
    let places = padded(
        (numerator % denominator) * (FRACTION_SCALE as nat) / denominator,
        FRACTION_DIGITS as nat,
    );
    lemma_decimal_is_number(numerator / denominator);
    lemma_padded_is_number(
        (numerator % denominator) * (FRACTION_SCALE as nat) / denominator,
        FRACTION_DIGITS as nat,
    );
    lemma_trimmed_is_number(places);
}

/// Reads a truth value: which one, and what follows it.
pub open spec fn read_bool(s: Seq<u8>) -> Option<(bool, Seq<u8>)> {
    if encode_utf8("true"@).is_prefix_of(s) {
        Some((true, s.skip(encode_utf8("true"@).len() as int)))
    } else if encode_utf8("false"@).is_prefix_of(s) {
        Some((false, s.skip(encode_utf8("false"@).len() as int)))
    } else {
        None
    }
}

/// A truth value is read back as it was, whatever follows it.
pub proof fn lemma_read_bool(b: bool, rest: Seq<u8>)
    ensures
        read_bool(bool_text(b) + rest) == Some((b, rest)),
{
    reveal_strlit("true");
    reveal_strlit("false");
    let yes = encode_utf8("true"@);
    let no = encode_utf8("false"@);
    assert(is_ascii_chars("true"@));
    assert(is_ascii_chars("false"@));
    is_ascii_chars_encode_utf8("true"@);
    is_ascii_chars_encode_utf8("false"@);
    let s = bool_text(b) + rest;
    if b {
        assert(s.subrange(0, yes.len() as int) =~= yes);
        assert(s.skip(yes.len() as int) =~= rest);
    } else {
        assert(yes[0] == 0x74u8);
        assert(no[0] == 0x66u8);
        assert(s[0] == no[0]);
        if yes.is_prefix_of(s) {
            assert(s.subrange(0, yes.len() as int)[0] == yes[0]);
        }
        assert(s.subrange(0, no.len() as int) =~= no);
        assert(s.skip(no.len() as int) =~= rest);
    }
}

/// The parts from the one at `from` on, with a comma between neighbours,
/// and `tail` behind the last.
pub open spec fn framed(parts: Seq<Seq<u8>>, from: int, tail: Seq<u8>) -> Seq<u8>
    decreases parts.len() - from,
{
    if from < 0 || from >= parts.len() {
        tail
    } else if from == parts.len() - 1 {
        parts[from] + tail
    } else {
        parts[from] + (seq![COMMA] + framed(parts, from + 1, tail))
    }
}

proof fn lemma_joined_front(parts: Seq<Seq<u8>>)
    requires
        parts.len() >= 2,
    ensures
        joined(parts) == parts[0] + seq![COMMA] + joined(parts.skip(1)),
    decreases parts.len(),
{
    let shorter = parts.drop_last();
    let behind = parts.skip(1);
    if parts.len() == 2 {
        assert(joined(shorter) == parts[0]);
        assert(joined(behind) == parts[1]);
    } else {
        lemma_joined_front(shorter);
        assert(behind.drop_last() =~= shorter.skip(1));
        assert(behind.last() == parts.last());
        assert(joined(parts) =~= parts[0] + seq![COMMA] + joined(behind));
    }
}

/// Parts joined by commas are the first part, a comma, and the rest joined.
pub proof fn lemma_joined_framed(parts: Seq<Seq<u8>>, from: int, tail: Seq<u8>)
    requires
        0 <= from <= parts.len(),
    ensures
        joined(parts.skip(from)) + tail == framed(parts, from, tail),
    decreases parts.len() - from,
{
    let behind = parts.skip(from);
    if from == parts.len() {
        assert(joined(behind) + tail =~= tail);
    } else if from == parts.len() - 1 {
        assert(behind[0] == parts[from]);
    } else {
        lemma_joined_framed(parts, from + 1, tail);
        lemma_joined_front(behind);
        assert(behind.skip(1) =~= parts.skip(from + 1));
        assert(behind[0] == parts[from]);
        assert(joined(behind) + tail =~= parts[from] + (seq![COMMA] + (joined(
            parts.skip(from + 1),
        ) + tail)));
    }
}

/// Reads the token of an endpoint.
pub open spec fn read_endpoint(text: Seq<char>) -> Option<Endpoint> {
    if text == "GATEWAY"@ {
        Some(Endpoint::Gateway)
    } else if text == "LOCAL"@ {
        Some(Endpoint::Local)
    } else if text == "ROAMING"@ {
        Some(Endpoint::Roaming)
    } else if text == "JOINSERVER"@ {
        Some(Endpoint::JoinServer)
    } else {
        None
    }
}

/// Reads the token of an outcome.
pub open spec fn read_result(text: Seq<char>) -> Option<FrameStatusResult> {
    if text == "OK"@ {
        Some(FrameStatusResult::OK)
    } else if text == "NOK"@ {
        Some(FrameStatusResult::NOK)
    } else if text == "WARN"@ {
        Some(FrameStatusResult::WARN)
    } else {
        None
    }
}

/// The token of an endpoint is read back as that endpoint.
pub proof fn lemma_read_endpoint(e: Endpoint)
    ensures
        read_endpoint(endpoint_token(e)) == Some(e),
{
    reveal_strlit("GATEWAY");
    reveal_strlit("LOCAL");
    reveal_strlit("ROAMING");
    reveal_strlit("JOINSERVER");
    assert("GATEWAY"@.len() == 7 && "LOCAL"@.len() == 5 && "ROAMING"@.len() == 7
        && "JOINSERVER"@.len() == 10);
    assert("GATEWAY"@[0] != "ROAMING"@[0]);
}

/// The token of an outcome is read back as that outcome.
pub proof fn lemma_read_result(r: FrameStatusResult)
    ensures
        read_result(result_token(r)) == Some(r),
{
    reveal_strlit("OK");
    reveal_strlit("NOK");
    reveal_strlit("WARN");
    assert("OK"@.len() == 2 && "NOK"@.len() == 3 && "WARN"@.len() == 4);
}

/// The value of a lowercase hexadecimal digit.
pub open spec fn hex_char_value(c: char) -> Option<int> {
    if '0' <= c <= '9' {
        Some(c as int - 0x30)
    } else if 'a' <= c <= 'f' {
        Some(c as int - 0x57)
    } else {
        None
    }
}

/// Reads lowercase hexadecimal text: one byte for every two digits.
pub open spec fn read_hex(text: Seq<char>) -> Option<Seq<u8>>
    decreases text.len(),
{
    if text.len() == 0 {
        Some(Seq::empty())
    } else if text.len() == 1 {
        None
    } else {
        let front = read_hex(text.subrange(0, text.len() - 2));
        let high = hex_char_value(text[text.len() - 2]);
        let low = hex_char_value(text[text.len() - 1]);
        if front is Some && high is Some && low is Some {
            Some(front->Some_0.push((16 * high->Some_0 + low->Some_0) as u8))
        } else {
            None
        }
    }
}

proof fn lemma_hex_digit_value(n: int)
    requires
        0 <= n < 16,
    ensures
        hex_char_value(hex_digits()[n]) == Some(n),
{
    let d = hex_digits();
    assert(d[0] == '0' && d[1] == '1' && d[2] == '2' && d[3] == '3' && d[4] == '4' && d[5] == '5'
        && d[6] == '6' && d[7] == '7');
    assert(d[8] == '8' && d[9] == '9' && d[10] == 'a' && d[11] == 'b' && d[12] == 'c' && d[13]
        == 'd' && d[14] == 'e' && d[15] == 'f');
}

/// Bytes written in hexadecimal take two digits each.
pub proof fn lemma_hex_lower_len(bytes: Seq<u8>)
    ensures
        hex_lower(bytes).len() == 2 * bytes.len(),
    decreases bytes.len(),
{
    if bytes.len() > 0 {
        lemma_hex_lower_len(bytes.drop_last());
    }
}

/// Hexadecimal text goes byte by byte, so it can be taken apart anywhere.
pub proof fn lemma_hex_lower_concat(a: Seq<u8>, b: Seq<u8>)
    ensures
        hex_lower(a + b) == hex_lower(a) + hex_lower(b),
    decreases b.len(),
{
    if b.len() == 0 {
        assert(a + b =~= a);
        assert(hex_lower(a) + hex_lower(b) =~= hex_lower(a));
    } else {
        lemma_hex_lower_concat(a, b.drop_last());
        assert((a + b).drop_last() =~= a + b.drop_last());
        assert((a + b).last() == b.last());
        assert(hex_lower(a + b) =~= hex_lower(a) + hex_lower(b));
    }
}

/// Bytes written in hexadecimal are read back as they were.
pub proof fn lemma_read_hex(bytes: Seq<u8>)
    ensures
        read_hex(hex_lower(bytes)) == Some(bytes),
    decreases bytes.len(),
{
    if bytes.len() == 0 {
        assert(bytes =~= Seq::<u8>::empty());
    } else {
        let text = hex_lower(bytes);
        let front = bytes.drop_last();
        let last = bytes.last();
        lemma_read_hex(front);
        lemma_hex_lower_len(bytes);
        lemma_hex_lower_len(front);
        lemma_hex_digit_value(last as int / 16);
        lemma_hex_digit_value(last as int % 16);
        assert(text.subrange(0, text.len() - 2) =~= hex_lower(front));
        assert(text[text.len() - 2] == hex_digits()[last as int / 16]);
        assert(text[text.len() - 1] == hex_digits()[last as int % 16]);
        assert(front.push(last) =~= bytes);
    }
}

/// Reads an identifier written in groups of 8, 4, 4, 4 and 12 digits.
pub open spec fn read_uuid(text: Seq<char>) -> Option<Seq<u8>> {
    if text.len() == 36 && text[8] == '-' && text[13] == '-' && text[18] == '-' && text[23]
        == '-' {
        read_hex(
            text.subrange(0, 8) + text.subrange(9, 13) + text.subrange(14, 18) + text.subrange(
                19,
                23,
            ) + text.subrange(24, 36),
        )
    } else {
        None
    }
}

/// An identifier of sixteen bytes is read back as it was.
pub proof fn lemma_read_uuid(id: Seq<u8>)
    requires
        id.len() == 16,
    ensures
        read_uuid(uuid_text(id)) == Some(id),
{
    reveal_strlit("-");
    let a = id.subrange(0, 4);
    let b = id.subrange(4, 6);
    let c = id.subrange(6, 8);
    let d = id.subrange(8, 10);
    let e = id.subrange(10, 16);
    lemma_hex_lower_len(a);
    lemma_hex_lower_len(b);
    lemma_hex_lower_len(c);
    lemma_hex_lower_len(d);
    lemma_hex_lower_len(e);
    let text = uuid_text(id);
    assert("-"@.len() == 1 && "-"@[0] == '-');
    assert(text.len() == 36);
    assert(text.subrange(0, 8) =~= hex_lower(a));
    assert(text.subrange(9, 13) =~= hex_lower(b));
    assert(text.subrange(14, 18) =~= hex_lower(c));
    assert(text.subrange(19, 23) =~= hex_lower(d));
    assert(text.subrange(24, 36) =~= hex_lower(e));
    lemma_hex_lower_concat(a, b);
    lemma_hex_lower_concat(a + b, c);
    lemma_hex_lower_concat(a + b + c, d);
    lemma_hex_lower_concat(a + b + c + d, e);
    assert(a + b + c + d + e =~= id);
    lemma_read_hex(id);
}

/// What follows a reading; nothing where there is no reading.
pub open spec fn rest_of<T>(reading: Option<(T, Seq<u8>)>) -> Seq<u8> {
    match reading {
        Some((_, rest)) => rest,
        None => Seq::empty(),
    }
}

/// A reading that goes on behind the comma that follows it.
pub open spec fn then_comma<T>(reading: Option<(T, Seq<u8>)>) -> Option<(T, Seq<u8>)> {
    match reading {
        Some((value, rest)) => match read_byte(rest, COMMA) {
            Some(behind) => Some((value, behind)),
            None => None,
        },
        None => None,
    }
}

/// Reads the member `key` whose value is a number: its text, and what
/// follows the member.
pub open spec fn read_number_member(s: Seq<u8>, key: Seq<char>) -> Option<(Seq<u8>, Seq<u8>)> {
    match read_key(s, key) {
        Some(value) => if read_number(value).0.len() > 0 {
            Some(read_number(value))
        } else {
            None
        },
        None => None,
    }
}

/// Reads the member `key` whose value is a truth value.
pub open spec fn read_bool_member(s: Seq<u8>, key: Seq<char>) -> Option<(bool, Seq<u8>)> {
    match read_key(s, key) {
        Some(value) => read_bool(value),
        None => None,
    }
}

/// Reads the member that holds the status: the token of the outcome and the
/// description, and what follows the member.
pub open spec fn read_status_member(s: Seq<u8>) -> Option<((Seq<char>, Seq<char>), Seq<u8>)> {
    let inside = match read_key(s, "FrameStatus"@) {
        Some(value) => read_byte(value, 0x7bu8),
        None => None,
    };
    let result = match inside {
        Some(members) => then_comma(read_text_member(members, "Result"@)),
        None => None,
    };
    let description = read_text_member(rest_of(result), "ErrorDesc"@);
    match (result, description) {
        (Some((token, _)), Some((text, end))) => match read_byte(end, 0x7du8) {
            Some(rest) => Some(((token, text), rest)),
            None => None,
        },
        _ => None,
    }
}

/// What a consumer finds in the required members of a record's document.
/// The two times and the time on air are given as they are written.
pub ghost struct Reading {
    pub ctx_id: Seq<u8>,
    pub publish_at: Seq<char>,
    pub created_at: Seq<char>,
    pub log_source: Endpoint,
    pub source_id: Seq<char>,
    pub log_destination: Endpoint,
    pub destination_id: Seq<char>,
    pub result: FrameStatusResult,
    pub error_desc: Seq<char>,
    pub time_on_air: Seq<u8>,
    pub dev_addr: Seq<u8>,
    pub dev_eui: Seq<u8>,
    pub known_device: bool,
}

/// What the required members of a record say, its two times written as
/// `publish_at` and `created_at`.
pub open spec fn reading_of(e: LogEntry, publish_at: Seq<char>, created_at: Seq<char>) -> Reading {
    Reading {
        ctx_id: e.ctx_id@,
        publish_at,
        created_at,
        log_source: e.log_source,
        source_id: e.source_id@,
        log_destination: e.log_destination,
        destination_id: e.destination_id@,
        result: e.frame_status.result,
        error_desc: e.frame_status.error_desc@,
        time_on_air: airtime_text(e.time_on_air),
        dev_addr: e.dev_addr@,
        dev_eui: e.dev_eui@,
        known_device: e.known_device,
    }
}

/// Reads the twelve required members from the front of a document, in the
/// order in which they are written: what they say, and what follows the
/// last of them. It asks for no other member.
pub open spec fn read_required(doc: Seq<u8>) -> Option<(Reading, Seq<u8>)> {
    let ends = read_ends(doc);
    let state = read_state(rest_of(ends));
    match (ends, state) {
        (
            Some(((ctx, published, created, source, source_name, destination, destination_name), _)),
            Some(((token, description, seconds, addr, eui, known), rest)),
        ) => match (
            read_uuid(ctx),
            read_endpoint(source),
            read_endpoint(destination),
            read_result(token),
            read_hex(addr),
            read_hex(eui),
        ) {
            (Some(id), Some(from), Some(to), Some(result), Some(dev_addr), Some(dev_eui)) => Some(
                (
                    Reading {
                        ctx_id: id,
                        publish_at: published,
                        created_at: created,
                        log_source: from,
                        source_id: source_name,
                        log_destination: to,
                        destination_id: destination_name,
                        result,
                        error_desc: description,
                        time_on_air: seconds,
                        dev_addr,
                        dev_eui,
                        known_device: known,
                    },
                    rest,
                ),
            ),
            _ => None,
        },
        _ => None,
    }
}

/// Reads a record's document as a consumer does to whom every optional
/// member may be missing: the required members, and behind them either the
/// end of the document or further members, which it leaves unread.
pub open spec fn read_record(doc: Seq<u8>) -> Option<Reading> {
    match read_required(doc) {
        Some((reading, rest)) => if rest == seq![0x7du8] || (rest.len() > 0 && rest[0] == COMMA) {
            Some(reading)
        } else {
            None
        },
        None => None,
    }
}

proof fn lemma_text_then_comma(key: Seq<char>, text: Seq<char>, rest: Seq<u8>)
    ensures
        then_comma(
            read_text_member(member_text(field(key, quoted(text))) + (seq![COMMA] + rest), key),
        ) == Some((text, rest)),
{
    let behind = seq![COMMA] + rest;
    lemma_read_text_member(key, text, behind);
    assert(behind[0] == COMMA);
    assert(behind.skip(1) =~= rest);
}

proof fn lemma_number_then_comma(key: Seq<char>, number: Seq<u8>, rest: Seq<u8>)
    requires
        is_number_text(number),
        number.len() > 0,
    ensures
        then_comma(
            read_number_member(member_text(field(key, number)) + (seq![COMMA] + rest), key),
        ) == Some((number, rest)),
{
    let behind = seq![COMMA] + rest;
    let s = member_text(field(key, number)) + behind;
    let value = number + behind;
    assert(s =~= quoted(key) + seq![COLON] + value);
    lemma_read_key(key, value);
    assert(behind[0] == COMMA);
    lemma_read_number(number, behind);
    assert(behind.skip(1) =~= rest);
}

proof fn lemma_read_bool_member(key: Seq<char>, b: bool, rest: Seq<u8>)
    ensures
        read_bool_member(member_text(field(key, bool_text(b))) + rest, key) == Some((b, rest)),
{
    let s = member_text(field(key, bool_text(b))) + rest;
    let value = bool_text(b) + rest;
    assert(s =~= quoted(key) + seq![COLON] + value);
    lemma_read_key(key, value);
    lemma_read_bool(b, rest);
}

proof fn lemma_status_then_comma(status: FrameStatus, rest: Seq<u8>)
    ensures
        then_comma(
            read_status_member(
                member_text(field("FrameStatus"@, frame_status_text(status))) + (seq![COMMA]
                    + rest),
            ),
        ) == Some(((result_token(status.result), status.error_desc@), rest)),
{
    let behind = seq![COMMA] + rest;
    let s = member_text(field("FrameStatus"@, frame_status_text(status))) + behind;
    let fields = frame_status_fields(status);
    let parts = member_texts(fields);
    let end = seq![0x7du8] + behind;
    let first = member_text(field("Result"@, quoted(result_token(status.result))));
    let second = member_text(field("ErrorDesc"@, quoted(status.error_desc@)));
    assert(parts.len() == 2 && parts[0] == first && parts[1] == second);
    assert(joined(parts) == first + seq![COMMA] + second) by {
        assert(parts.drop_last().len() == 1);
        assert(joined(parts.drop_last()) == parts[0]);
    }
    let inside = first + (seq![COMMA] + (second + end));
    let value = seq![0x7bu8] + inside;
    assert(frame_status_text(status) + behind =~= value);
    assert(s =~= quoted("FrameStatus"@) + seq![COLON] + value);
    lemma_read_key("FrameStatus"@, value);
    assert(value[0] == 0x7bu8);
    assert(value.skip(1) =~= inside);
    lemma_text_then_comma("Result"@, result_token(status.result), second + end);
    lemma_read_text_member("ErrorDesc"@, status.error_desc@, end);
    assert(end[0] == 0x7du8);
    assert(end.skip(1) =~= behind);
    assert(behind[0] == COMMA);
    assert(behind.skip(1) =~= rest);
}

proof fn lemma_with_optional_keeps_front(
    fields: Seq<Field>,
    key: Seq<char>,
    value: Option<Seq<u8>>,
)
    ensures
        with_optional(fields, key, value).len() >= fields.len(),
        forall|i: int|
            0 <= i < fields.len() ==> (#[trigger] with_optional(fields, key, value)[i])
                == fields[i],
{
}

/// The required members stand at the front of every record's members, in
/// their order, whatever follows them.
pub proof fn lemma_required_come_first(e: LogEntry, publish_at: Seq<char>, created_at: Seq<char>)
    ensures
        required_fields(e, publish_at, created_at).len() == 12,
        log_entry_fields(e, publish_at, created_at).len() >= 12,
        forall|i: int|
            0 <= i < 12 ==> (#[trigger] log_entry_fields(e, publish_at, created_at)[i])
                == required_fields(e, publish_at, created_at)[i],
        e.is_bare() ==> log_entry_fields(e, publish_at, created_at).len() == 12,
{
    let required = required_fields(e, publish_at, created_at);
    let values = optional_values(e);
    lemma_fields_are_required_then_optional(e, publish_at, created_at);
    let f1 = with_optional(required, "RXPacket"@, values[0]);
    let f2 = with_optional(f1, "TXPacket"@, values[1]);
    let f3 = with_optional(f2, "TXAck"@, values[2]);
    let f4 = with_optional(f3, "JoinReq"@, values[3]);
    let f5 = with_optional(f4, "JoinAns"@, values[4]);
    let f6 = with_optional(f5, "PRStartReq"@, values[5]);
    let f7 = with_optional(f6, "PRStartAns"@, values[6]);
    let f8 = with_optional(f7, "HomeNSReq"@, values[7]);
    let f9 = with_optional(f8, "HomeNSAns"@, values[8]);
    let f10 = with_optional(f9, "XmitDataReq"@, values[9]);
    let f11 = with_optional(f10, "XmitDataAns"@, values[10]);
    lemma_with_optional_keeps_front(required, "RXPacket"@, values[0]);
    lemma_with_optional_keeps_front(f1, "TXPacket"@, values[1]);
    lemma_with_optional_keeps_front(f2, "TXAck"@, values[2]);
    lemma_with_optional_keeps_front(f3, "JoinReq"@, values[3]);
    lemma_with_optional_keeps_front(f4, "JoinAns"@, values[4]);
    lemma_with_optional_keeps_front(f5, "PRStartReq"@, values[5]);
    lemma_with_optional_keeps_front(f6, "PRStartAns"@, values[6]);
    lemma_with_optional_keeps_front(f7, "HomeNSReq"@, values[7]);
    lemma_with_optional_keeps_front(f8, "HomeNSAns"@, values[8]);
    lemma_with_optional_keeps_front(f9, "XmitDataReq"@, values[9]);
    lemma_with_optional_keeps_front(f10, "XmitDataAns"@, values[10]);
    assert(f11 == log_entry_fields(e, publish_at, created_at));
    assert forall|i: int| 0 <= i < 12 implies (#[trigger] f11[i]) == required[i] by {
        assert(f1[i] == required[i]);
        assert(f2[i] == f1[i]);
        assert(f3[i] == f2[i]);
        assert(f4[i] == f3[i]);
        assert(f5[i] == f4[i]);
        assert(f6[i] == f5[i]);
        assert(f7[i] == f6[i]);
        assert(f8[i] == f7[i]);
        assert(f9[i] == f8[i]);
        assert(f10[i] == f9[i]);
        assert(f11[i] == f10[i]);
    }
    if e.is_bare() {
        lemma_bare_record_omits_optional_members(e, publish_at, created_at);
    }
}

/// What follows the member at `i` in a document of the members `fields`
/// that ends with `tail`.
pub open spec fn behind_member(fields: Seq<Field>, i: int, tail: Seq<u8>) -> Seq<u8> {
    if i == fields.len() - 1 {
        tail
    } else {
        seq![COMMA] + framed(member_texts(fields), i + 1, tail)
    }
}

proof fn lemma_framed_member(fields: Seq<Field>, i: int, tail: Seq<u8>)
    requires
        0 <= i < fields.len(),
    ensures
        framed(member_texts(fields), i, tail) == member_text(fields[i]) + behind_member(
            fields,
            i,
            tail,
        ),
{
    assert(member_texts(fields)[i] == member_text(fields[i]));
}

/// What is left of a record's document at the member at `i`.
pub open spec fn stage(e: LogEntry, publish_at: Seq<char>, created_at: Seq<char>, i: int) -> Seq<
    u8,
> {
    framed(member_texts(log_entry_fields(e, publish_at, created_at)), i, seq![0x7du8])
}

/// What follows the last required member in a record's document.
pub open spec fn ending(e: LogEntry, publish_at: Seq<char>, created_at: Seq<char>) -> Seq<u8> {
    behind_member(log_entry_fields(e, publish_at, created_at), 11, seq![0x7du8])
}

proof fn lemma_document_shape(e: LogEntry, publish_at: Seq<char>, created_at: Seq<char>)
    ensures
        log_entry_text(e, publish_at, created_at).len() > 0,
        log_entry_text(e, publish_at, created_at)[0] == 0x7bu8,
        log_entry_text(e, publish_at, created_at).skip(1) == stage(e, publish_at, created_at, 0),
        forall|i: int|
            0 <= i < 11 ==> #[trigger] stage(e, publish_at, created_at, i) == member_text(
                required_fields(e, publish_at, created_at)[i],
            ) + (seq![COMMA] + stage(e, publish_at, created_at, i + 1)),
        stage(e, publish_at, created_at, 11) == member_text(
            required_fields(e, publish_at, created_at)[11],
        ) + ending(e, publish_at, created_at),
        ending(e, publish_at, created_at) == seq![0x7du8] || (ending(
            e,
            publish_at,
            created_at,
        ).len() > 0 && ending(e, publish_at, created_at)[0] == COMMA),
        e.is_bare() ==> ending(e, publish_at, created_at) == seq![0x7du8],
{
    let all = log_entry_fields(e, publish_at, created_at);
    let required = required_fields(e, publish_at, created_at);
    let parts = member_texts(all);
    let tail = seq![0x7du8];
    let doc = log_entry_text(e, publish_at, created_at);
    lemma_required_come_first(e, publish_at, created_at);
    lemma_joined_framed(parts, 0, tail);
    assert(parts.skip(0) =~= parts);
    assert(doc =~= seq![0x7bu8] + framed(parts, 0, tail));
    assert(doc.skip(1) =~= framed(parts, 0, tail));
    assert forall|i: int| 0 <= i < 11 implies #[trigger] stage(e, publish_at, created_at, i)
        == member_text(required[i]) + (seq![COMMA] + stage(e, publish_at, created_at, i + 1)) by {
        lemma_framed_member(all, i, tail);
        assert(all[i] == required[i]);
    }
    lemma_framed_member(all, 11, tail);
    assert(all[11] == required[11]);
}

proof fn lemma_required_members(e: LogEntry, publish_at: Seq<char>, created_at: Seq<char>)
    ensures
        ({
            let r = required_fields(e, publish_at, created_at);
            &&& r[0] == field("CtxID"@, quoted(uuid_text(e.ctx_id@)))
            &&& r[1] == field("PublishAt"@, quoted(publish_at))
            &&& r[2] == field("CreatedAt"@, quoted(created_at))
            &&& r[3] == field("LogSource"@, quoted(endpoint_token(e.log_source)))
            &&& r[4] == field("SourceID"@, quoted(e.source_id@))
            &&& r[5] == field("LogDestination"@, quoted(endpoint_token(e.log_destination)))
            &&& r[6] == field("DestinationID"@, quoted(e.destination_id@))
            &&& r[7] == field("FrameStatus"@, frame_status_text(e.frame_status))
            &&& r[8] == field("TimeOnAir"@, airtime_text(e.time_on_air))
            &&& r[9] == field("DevAddr"@, quoted(hex_lower(e.dev_addr@)))
            &&& r[10] == field("DevEUI"@, quoted(hex_lower(e.dev_eui@)))
            &&& r[11] == field("KnownDevice"@, bool_text(e.known_device))
        }),
{
}

/// The first seven members as they are read, and what follows them.
pub open spec fn read_ends(doc: Seq<u8>) -> Option<
    ((Seq<char>, Seq<char>, Seq<char>, Seq<char>, Seq<char>, Seq<char>, Seq<char>), Seq<u8>),
> {
    let open = match read_byte(doc, 0x7bu8) {
        Some(members) => members,
        None => Seq::empty(),
    };
    let ctx_id = then_comma(read_text_member(open, "CtxID"@));
    let publish_at = then_comma(read_text_member(rest_of(ctx_id), "PublishAt"@));
    let created_at = then_comma(read_text_member(rest_of(publish_at), "CreatedAt"@));
    let log_source = then_comma(read_text_member(rest_of(created_at), "LogSource"@));
    let source_id = then_comma(read_text_member(rest_of(log_source), "SourceID"@));
    let log_destination = then_comma(read_text_member(rest_of(source_id), "LogDestination"@));
    let destination_id = then_comma(
        read_text_member(rest_of(log_destination), "DestinationID"@),
    );
    match (
        ctx_id,
        publish_at,
        created_at,
        log_source,
        source_id,
        log_destination,
        destination_id,
    ) {
        (
            Some((ctx, _)),
            Some((published, _)),
            Some((created, _)),
            Some((source, _)),
            Some((source_name, _)),
            Some((destination, _)),
            Some((destination_name, rest)),
        ) => Some(
            ((ctx, published, created, source, source_name, destination, destination_name), rest),
        ),
        _ => None,
    }
}

/// The last five required members as they are read, and what follows them.
pub open spec fn read_state(s: Seq<u8>) -> Option<
    ((Seq<char>, Seq<char>, Seq<u8>, Seq<char>, Seq<char>, bool), Seq<u8>),
> {
    let status = then_comma(read_status_member(s));
    let time_on_air = then_comma(read_number_member(rest_of(status), "TimeOnAir"@));
    let dev_addr = then_comma(read_text_member(rest_of(time_on_air), "DevAddr"@));
    let dev_eui = then_comma(read_text_member(rest_of(dev_addr), "DevEUI"@));
    let known_device = read_bool_member(rest_of(dev_eui), "KnownDevice"@);
    match (status, time_on_air, dev_addr, dev_eui, known_device) {
        (
            Some(((token, description), _)),
            Some((seconds, _)),
            Some((addr, _)),
            Some((eui, _)),
            Some((known, rest)),
        ) => Some(((token, description, seconds, addr, eui, known), rest)),
        _ => None,
    }
}

proof fn lemma_read_ends(e: LogEntry, publish_at: Seq<char>, created_at: Seq<char>)
    ensures
        read_ends(log_entry_text(e, publish_at, created_at)) == Some(
            (
                (
                    uuid_text(e.ctx_id@),
                    publish_at,
                    created_at,
                    endpoint_token(e.log_source),
                    e.source_id@,
                    endpoint_token(e.log_destination),
                    e.destination_id@,
                ),
                stage(e, publish_at, created_at, 7),
            ),
        ),
{
    lemma_document_shape(e, publish_at, created_at);
    lemma_required_members(e, publish_at, created_at);
    let r = required_fields(e, publish_at, created_at);
    let s0 = stage(e, publish_at, created_at, 0);
    let s1 = stage(e, publish_at, created_at, 1);
    let s2 = stage(e, publish_at, created_at, 2);
    let s3 = stage(e, publish_at, created_at, 3);
    let s4 = stage(e, publish_at, created_at, 4);
    let s5 = stage(e, publish_at, created_at, 5);
    let s6 = stage(e, publish_at, created_at, 6);
    let s7 = stage(e, publish_at, created_at, 7);
    assert(s0 == member_text(r[0]) + (seq![COMMA] + s1));
    assert(s1 == member_text(r[1]) + (seq![COMMA] + s2));
    assert(s2 == member_text(r[2]) + (seq![COMMA] + s3));
    assert(s3 == member_text(r[3]) + (seq![COMMA] + s4));
    assert(s4 == member_text(r[4]) + (seq![COMMA] + s5));
    assert(s5 == member_text(r[5]) + (seq![COMMA] + s6));
    assert(s6 == member_text(r[6]) + (seq![COMMA] + s7));
    lemma_text_then_comma("CtxID"@, uuid_text(e.ctx_id@), s1);
    lemma_text_then_comma("PublishAt"@, publish_at, s2);
    lemma_text_then_comma("CreatedAt"@, created_at, s3);
    lemma_text_then_comma("LogSource"@, endpoint_token(e.log_source), s4);
    lemma_text_then_comma("SourceID"@, e.source_id@, s5);
    lemma_text_then_comma("LogDestination"@, endpoint_token(e.log_destination), s6);
    lemma_text_then_comma("DestinationID"@, e.destination_id@, s7);
}

proof fn lemma_read_state(e: LogEntry, publish_at: Seq<char>, created_at: Seq<char>)
    ensures
        read_state(stage(e, publish_at, created_at, 7)) == Some(
            (
                (
                    result_token(e.frame_status.result),
                    e.frame_status.error_desc@,
                    airtime_text(e.time_on_air),
                    hex_lower(e.dev_addr@),
                    hex_lower(e.dev_eui@),
                    e.known_device,
                ),
                ending(e, publish_at, created_at),
            ),
        ),
{
    lemma_document_shape(e, publish_at, created_at);
    lemma_required_members(e, publish_at, created_at);
    let r = required_fields(e, publish_at, created_at);
    let s7 = stage(e, publish_at, created_at, 7);
    let s8 = stage(e, publish_at, created_at, 8);
    let s9 = stage(e, publish_at, created_at, 9);
    let s10 = stage(e, publish_at, created_at, 10);
    let s11 = stage(e, publish_at, created_at, 11);
    let end = ending(e, publish_at, created_at);
    assert(s7 == member_text(r[7]) + (seq![COMMA] + s8));
    assert(s8 == member_text(r[8]) + (seq![COMMA] + s9));
    assert(s9 == member_text(r[9]) + (seq![COMMA] + s10));
    assert(s10 == member_text(r[10]) + (seq![COMMA] + s11));
    lemma_status_then_comma(e.frame_status, s8);
    lemma_ratio_text_is_number(e.time_on_air@.numerator, e.time_on_air@.denominator);
    lemma_number_then_comma("TimeOnAir"@, airtime_text(e.time_on_air), s9);
    lemma_text_then_comma("DevAddr"@, hex_lower(e.dev_addr@), s10);
    lemma_text_then_comma("DevEUI"@, hex_lower(e.dev_eui@), s11);
    lemma_read_bool_member("KnownDevice"@, e.known_device, end);
}

/// Every record's document reads back: the reader finds in it what the
/// twelve required members of the record say, and behind them the end of
/// the document or a comma. It needs none of the optional members, and
/// where the record carries none of them, nothing but the end is left.
pub proof fn lemma_required_members_read_back(
    e: LogEntry,
    publish_at: Seq<char>,
    created_at: Seq<char>,
)
    ensures
        read_required(log_entry_text(e, publish_at, created_at)) == Some(
            (reading_of(e, publish_at, created_at), ending(e, publish_at, created_at)),
        ),
        e.is_bare() ==> ending(e, publish_at, created_at) == seq![0x7du8],
        read_record(log_entry_text(e, publish_at, created_at)) == Some(
            reading_of(e, publish_at, created_at),
        ),
{
    lemma_read_ends(e, publish_at, created_at);
    lemma_read_state(e, publish_at, created_at);
    lemma_document_shape(e, publish_at, created_at);
    lemma_read_uuid(e.ctx_id@);
    lemma_read_endpoint(e.log_source);
    lemma_read_endpoint(e.log_destination);
    lemma_read_result(e.frame_status.result);
    lemma_read_hex(e.dev_addr@);
    lemma_read_hex(e.dev_eui@);
}

/// What is published for a record reads back as what the record says: a
/// consumer that takes every optional member for optional finds the twelve
/// required values in the document, each as the record holds it, the two
/// times as `chrono` wrote them.
pub proof fn lemma_wire_form_reads_back(e: LogEntry, doc: Seq<u8>)
    requires
        wire_form(e) == Ok::<Seq<u8>, SerializeError>(doc),
    ensures
        rfc3339_text(e.publish_at.secs as int, e.publish_at.nanos as int) matches Some(publish_at)
            && rfc3339_text(e.created_at.secs as int, e.created_at.nanos as int) matches Some(
            created_at,
        ) && read_record(doc) == Some(reading_of(e, publish_at, created_at)),
{
    let publish_at = rfc3339_text(e.publish_at.secs as int, e.publish_at.nanos as int)->Some_0;
    let created_at = rfc3339_text(e.created_at.secs as int, e.created_at.nanos as int)->Some_0;
    lemma_required_members_read_back(e, publish_at, created_at);
}

/// The message that a backend makes of a record reads back as what the
/// record says. Where the record carries no sub-event, the consumer finds
/// the twelve required values and, behind them, nothing but the end of the
/// document: it needs none of the members that were left out.
pub proof fn lemma_published_record_reads_back(backend: MqttBackend, e: LogEntry, m: Message)
    requires
        wire_form(e) matches Ok(bytes) && backend.frames(m, bytes),
    ensures
        rfc3339_text(e.publish_at.secs as int, e.publish_at.nanos as int) matches Some(publish_at)
            && rfc3339_text(e.created_at.secs as int, e.created_at.nanos as int) matches Some(
            created_at,
        ) && read_record(m.payload@) == Some(reading_of(e, publish_at, created_at)) && (
        e.is_bare() ==> read_required(m.payload@) == Some(
            (reading_of(e, publish_at, created_at), seq![0x7du8]),
        )),
{
    let publish_at = rfc3339_text(e.publish_at.secs as int, e.publish_at.nanos as int)->Some_0;
    let created_at = rfc3339_text(e.created_at.secs as int, e.created_at.nanos as int)->Some_0;
    lemma_required_members_read_back(e, publish_at, created_at);
}

} // verus!
