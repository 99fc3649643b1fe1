//! Text primitives of the wire form: lowercase hexadecimal, decimal numbers,
//! string escaping and the framing of objects and arrays.

use vstd::prelude::*;
use vstd::string::*;

verus! {

pub const QUOTE: u8 = 0x22;

pub const BACKSLASH: u8 = 0x5c;

pub const COMMA: u8 = 0x2c;

pub const COLON: u8 = 0x3a;

pub const POINT: u8 = 0x2e;

pub const MINUS: u8 = 0x2d;

pub const ZERO: u8 = 0x30;

/// Number of decimal places to which a ratio is written out.
pub const FRACTION_DIGITS: usize = 18;

/// Ten to the power of `FRACTION_DIGITS`.
pub const FRACTION_SCALE: u128 = 1_000_000_000_000_000_000;

/// The sixteen lowercase hexadecimal digits, by value.
pub open spec fn hex_digits() -> Seq<char> {
    seq!['0', '1', '2', '3', '4', '5', '6', '7', '8', '9', 'a', 'b', 'c', 'd', 'e', 'f']
}

/// Two lowercase hexadecimal digits for each byte, in order.
pub open spec fn hex_lower(bytes: Seq<u8>) -> Seq<char>
    decreases bytes.len(),
{
    if bytes.len() == 0 {
        Seq::empty()
    } else {
        hex_lower(bytes.drop_last()).push(hex_digits()[bytes.last() as int / 16]).push(
            hex_digits()[bytes.last() as int % 16],
        )
    }
}

/// Lowercase hexadecimal digits of `v` without leading zeros; one digit for zero.
pub open spec fn hex_min(v: nat) -> Seq<char>
    decreases v,
{
    if v < 16 {
        seq![hex_digits()[v as int]]
    } else {
        hex_min(v / 16).push(hex_digits()[(v % 16) as int])
    }
}

/// The ASCII code of the decimal digit `d`.
pub open spec fn digit(d: int) -> u8 {
    (0x30 + d) as u8
}

/// Decimal digits of `v` without leading zeros; one digit for zero.
pub open spec fn decimal(v: nat) -> Seq<u8>
    decreases v,
{
    if v < 10 {
        seq![digit(v as int)]
    } else {
        decimal(v / 10).push(digit((v % 10) as int))
    }
}

/// Decimal digits of `v`, behind a minus sign where `v` is negative.
pub open spec fn decimal_signed(v: int) -> Seq<u8> {
    if v < 0 {
        seq![MINUS] + decimal((-v) as nat)
    } else {
        decimal(v as nat)
    }
}

/// The last `width` decimal digits of `v`, with leading zeros.
pub open spec fn padded(v: nat, width: nat) -> Seq<u8>
    decreases width,
{
    if width == 0 {
        Seq::empty()
    } else {
        padded(v / 10, (width - 1) as nat).push(digit((v % 10) as int))
    }
}

/// `digits` without its trailing zeros, of which one stays where nothing else is left.
pub open spec fn trimmed(digits: Seq<u8>) -> Seq<u8>
    decreases digits.len(),
{
    if digits.len() > 1 && digits.last() == ZERO {
        trimmed(digits.drop_last())
    } else {
        digits
    }
}

/// The quotient `numerator / denominator` as a decimal number: the whole
/// part, a point, and the fraction cut off after `FRACTION_DIGITS` places,
/// without trailing zeros but with at least one place.
pub open spec fn ratio_text(numerator: nat, denominator: nat) -> Seq<u8> {
    decimal(numerator / denominator) + seq![POINT] + trimmed(
        padded(
            (numerator % denominator) * (FRACTION_SCALE as nat) / denominator,
            FRACTION_DIGITS as nat,
        ),
    )
}

/// What stands for one byte inside a quoted string.
pub open spec fn escape_byte(b: u8) -> Seq<u8> {
    if b == QUOTE {
        seq![BACKSLASH, QUOTE]
    } else if b == BACKSLASH {
        seq![BACKSLASH, BACKSLASH]
    } else if b == 0x08 {
        seq![BACKSLASH, 0x62u8]
    } else if b == 0x09 {
        seq![BACKSLASH, 0x74u8]
    } else if b == 0x0a {
        seq![BACKSLASH, 0x6eu8]
    } else if b == 0x0c {
        seq![BACKSLASH, 0x66u8]
    } else if b == 0x0d {
        seq![BACKSLASH, 0x72u8]
    } else if b < 0x20 {
        seq![BACKSLASH, 0x75u8, ZERO, ZERO, hex_byte(b as int / 16), hex_byte(b as int % 16)]
    } else {
        seq![b]
    }
}

/// The ASCII code of the lowercase hexadecimal digit `n`.
pub open spec fn hex_byte(n: int) -> u8 {
    if n < 10 {
        (0x30 + n) as u8
    } else {
        (0x57 + n) as u8
    }
}

/// `s` with every byte replaced by what stands for it inside a quoted string.
pub open spec fn escape(s: Seq<u8>) -> Seq<u8>
    decreases s.len(),
{
    if s.len() == 0 {
        Seq::empty()
    } else {
        escape(s.drop_last()) + escape_byte(s.last())
    }
}

/// The UTF-8 bytes of `text` as a quoted string.
pub open spec fn quoted(text: Seq<char>) -> Seq<u8> {
    seq![QUOTE] + escape(vstd::utf8::encode_utf8(text)) + seq![QUOTE]
}

/// The parts in order, with a comma between neighbours.
pub open spec fn joined(parts: Seq<Seq<u8>>) -> Seq<u8>
    decreases parts.len(),
{
    if parts.len() == 0 {
        Seq::empty()
    } else if parts.len() == 1 {
        parts[0]
    } else {
        joined(parts.drop_last()) + seq![COMMA] + parts.last()
    }
}

/// A list of values as one array.
pub open spec fn array(items: Seq<Seq<u8>>) -> Seq<u8> {
    seq![0x5bu8] + joined(items) + seq![0x5du8]
}

/// One member of an object: its key and its value as it is written.
pub ghost struct Field {
    pub key: Seq<char>,
    pub value: Seq<u8>,
}

/// A member as it is written: the quoted key, a colon and the value.
pub open spec fn member_text(f: Field) -> Seq<u8> {
    quoted(f.key) + seq![COLON] + f.value
}

/// The members of a list, each as it is written.
pub open spec fn member_texts(fields: Seq<Field>) -> Seq<Seq<u8>> {
    fields.map_values(|f: Field| member_text(f))
}

/// A list of members as one object.
pub open spec fn object(fields: Seq<Field>) -> Seq<u8> {
    seq![0x7bu8] + joined(member_texts(fields)) + seq![0x7du8]
}

/// The keys of a list of members, in order.
pub open spec fn keys(fields: Seq<Field>) -> Seq<Seq<char>> {
    fields.map_values(|f: Field| f.key)
}

/// One member of an object, ready to be written.
#[derive(Debug)]
pub struct Member {
    pub key: String,
    pub value: Vec<u8>,
}

impl View for Member {
    type V = Field;

    open spec fn view(&self) -> Field {
        Field { key: self.key@, value: self.value@ }
    }
}

/// The values of a list, each by its view.
pub open spec fn texts_of(items: Seq<Vec<u8>>) -> Seq<Seq<u8>> {
    items.map_values(|v: Vec<u8>| v@)
}

/// The members of a list, each by its view.
pub open spec fn fields_of(members: Seq<Member>) -> Seq<Field> {
    members.map_values(|m: Member| m@)
}

proof fn lemma_padded_len(v: nat, width: nat)
    ensures
        padded(v, width).len() == width,
    decreases width,
{
    if width > 0 {
        lemma_padded_len(v / 10, (width - 1) as nat);
    }
}

fn nibble_text(n: u8) -> (s: &'static str)
    requires
        n < 16,
    ensures
        s@ == seq![hex_digits()[n as int]],
{
    proof {
        reveal_strlit("0");
        reveal_strlit("1");
        reveal_strlit("2");
        reveal_strlit("3");
        reveal_strlit("4");
        reveal_strlit("5");
        reveal_strlit("6");
        reveal_strlit("7");
        reveal_strlit("8");
        reveal_strlit("9");
        reveal_strlit("a");
        reveal_strlit("b");
        reveal_strlit("c");
        reveal_strlit("d");
        reveal_strlit("e");
        reveal_strlit("f");
    }
    let s = match n {
        0 => "0",
        1 => "1",
        2 => "2",
        3 => "3",
        4 => "4",
        5 => "5",
        6 => "6",
        7 => "7",
        8 => "8",
        9 => "9",
        10 => "a",
        11 => "b",
        12 => "c",
        13 => "d",
        14 => "e",
        _ => "f",
    };
    assert(s@ =~= seq![hex_digits()[n as int]]);
    s
}

/// Appends two lowercase hexadecimal digits for each byte of `bytes`.
pub fn append_hex(text: &mut String, bytes: &[u8])
    ensures
        final(text)@ == old(text)@ + hex_lower(bytes@),
{
    let mut i: usize = 0;
    assert(old(text)@ + hex_lower(bytes@.take(0)) =~= old(text)@);
    while i < bytes.len()
        invariant
            i <= bytes.len(),
            text@ == old(text)@ + hex_lower(bytes@.take(i as int)),
        decreases bytes.len() - i,
    {
        let b = bytes[i];
        let ghost before = text@;
        text.append(nibble_text(b / 16));
        text.append(nibble_text(b % 16));
        proof {
            let next = bytes@.take(i + 1);
            assert(next.drop_last() =~= bytes@.take(i as int));
            assert(next.last() == b);
            assert(text@ =~= old(text)@ + hex_lower(next));
        }
        i += 1;
    }
    assert(bytes@.take(bytes.len() as int) =~= bytes@);
}

/// The bytes as lowercase hexadecimal text.
pub fn hex_string(bytes: &[u8]) -> (text: String)
    ensures
        text@ == hex_lower(bytes@),
{
    let mut text = String::new();
    append_hex(&mut text, bytes);
    assert(Seq::<char>::empty() + hex_lower(bytes@) =~= hex_lower(bytes@));
    text
}

/// Appends the lowercase hexadecimal digits of `v`, without leading zeros.
pub fn append_hex_min(text: &mut String, v: u64)
    ensures
        final(text)@ == old(text)@ + hex_min(v as nat),
    decreases v,
{
    if v >= 16 {
        append_hex_min(text, v / 16);
    }
    let ghost before = text@;
    text.append(nibble_text((v % 16) as u8));
    assert(text@ =~= old(text)@ + hex_min(v as nat));
}

/// Appends the decimal digits of `v`.
pub fn push_decimal(out: &mut Vec<u8>, v: u128)
    ensures
        final(out)@ == old(out)@ + decimal(v as nat),
    decreases v,
{
    if v >= 10 {
        push_decimal(out, v / 10);
    }
    let d: u8 = (v % 10) as u8;
    out.push(0x30 + d);
    assert(out@ =~= old(out)@ + decimal(v as nat));
}

/// Appends the decimal digits of `v`, behind a minus sign where it is negative.
pub fn push_decimal_signed(out: &mut Vec<u8>, v: i64)
    ensures
        final(out)@ == old(out)@ + decimal_signed(v as int),
{
    if v < 0 {
        out.push(MINUS);
        let wide: i128 = v as i128;
        let magnitude: u128 = (0 - wide) as u128;
        push_decimal(out, magnitude);
        assert(out@ =~= old(out)@ + decimal_signed(v as int));
    } else {
        push_decimal(out, v as u128);
    }
}

fn push_padded(out: &mut Vec<u8>, v: u128, width: usize)
    ensures
        final(out)@ == old(out)@ + padded(v as nat, width as nat),
    decreases width,
{
    if width > 0 {
        push_padded(out, v / 10, width - 1);
        let d: u8 = (v % 10) as u8;
        out.push(0x30 + d);
    }
    assert(out@ =~= old(out)@ + padded(v as nat, width as nat));
}

/// Appends `numerator / denominator` as a decimal number.
pub fn push_ratio(out: &mut Vec<u8>, numerator: u128, denominator: u64)
    requires
        denominator > 0,
    ensures
        final(out)@ == old(out)@ + ratio_text(numerator as nat, denominator as nat),
{
    let wide: u128 = denominator as u128;
    let whole: u128 = numerator / wide;
    let rest: u128 = numerator % wide;
    let scaled: u128 = rest * FRACTION_SCALE / wide;
    push_decimal(out, whole);
    out.push(POINT);
    let mut places: u128 = scaled;
    let mut width: usize = FRACTION_DIGITS;
    while width > 1 && places % 10 == 0
        invariant
            1 <= width <= FRACTION_DIGITS,
            trimmed(padded(scaled as nat, FRACTION_DIGITS as nat)) == trimmed(
                padded(places as nat, width as nat),
            ),
        decreases width,
    {
        proof {
            lemma_padded_len(places as nat, width as nat);
            let full = padded(places as nat, width as nat);
            assert(full.drop_last() =~= padded((places / 10) as nat, (width - 1) as nat));
        }
        places = places / 10;
        width = width - 1;
    }
    proof {
        lemma_padded_len(places as nat, width as nat);
    }
    push_padded(out, places, width);
    assert(out@ =~= old(out)@ + ratio_text(numerator as nat, denominator as nat));
}

fn hex_byte_of(n: u8) -> (b: u8)
    requires
        n < 16,
    ensures
        b == hex_byte(n as int),
{
    if n < 10 {
        0x30 + n
    } else {
        0x57 + n
    }
}

fn push_escaped_byte(out: &mut Vec<u8>, b: u8)
    ensures
        final(out)@ == old(out)@ + escape_byte(b),
{
    if b == QUOTE || b == BACKSLASH {
        out.push(BACKSLASH);
        out.push(b);
    } else if b == 0x08 {
        out.push(BACKSLASH);
        out.push(0x62);
    } else if b == 0x09 {
        out.push(BACKSLASH);
        out.push(0x74);
    } else if b == 0x0a {
        out.push(BACKSLASH);
        out.push(0x6e);
    } else if b == 0x0c {
        out.push(BACKSLASH);
        out.push(0x66);
    } else if b == 0x0d {
        out.push(BACKSLASH);
        out.push(0x72);
    } else if b < 0x20 {
        out.push(BACKSLASH);
        out.push(0x75);
        out.push(ZERO);
        out.push(ZERO);
        out.push(hex_byte_of(b / 16));
        out.push(hex_byte_of(b % 16));
    } else {
        out.push(b);
    }
    assert(out@ =~= old(out)@ + escape_byte(b));
}

/// Appends `s` as it stands inside a quoted string.
pub fn push_escaped(out: &mut Vec<u8>, s: &[u8])
    ensures
        final(out)@ == old(out)@ + escape(s@),
{
    let mut i: usize = 0;
    assert(old(out)@ + escape(s@.take(0)) =~= old(out)@);
    while i < s.len()
        invariant
            i <= s.len(),
            out@ == old(out)@ + escape(s@.take(i as int)),
        decreases s.len() - i,
    {
        push_escaped_byte(out, s[i]);
        proof {
            let next = s@.take(i + 1);
            assert(next.drop_last() =~= s@.take(i as int));
            assert(out@ =~= old(out)@ + escape(next));
        }
        i += 1;
    }
    assert(s@.take(s.len() as int) =~= s@);
}

/// Appends `text` as a quoted string.
pub fn push_quoted(out: &mut Vec<u8>, text: &str)
    ensures
        final(out)@ == old(out)@ + quoted(text@),
{
    out.push(QUOTE);
    push_escaped(out, text.as_bytes());
    out.push(QUOTE);
    assert(out@ =~= old(out)@ + quoted(text@));
}

/// `text` as a quoted string.
pub fn quoted_text(text: &str) -> (out: Vec<u8>)
    ensures
        out@ == quoted(text@),
{
    let mut out: Vec<u8> = Vec::new();
    push_quoted(&mut out, text);
    assert(Seq::<u8>::empty() + quoted(text@) =~= quoted(text@));
    out
}

/// Adds one value at the end of a list.
pub fn push_item(items: &mut Vec<Vec<u8>>, item: Vec<u8>)
    ensures
        texts_of(final(items)@) == texts_of(old(items)@).push(item@),
{
    let ghost added = item@;
    items.push(item);
    assert(texts_of(items@) =~= texts_of(old(items)@).push(added));
}

/// The values as one array.
pub fn write_array(items: &Vec<Vec<u8>>) -> (out: Vec<u8>)
    ensures
        out@ == array(texts_of(items@)),
{
    let ghost parts = texts_of(items@);
    let mut out: Vec<u8> = Vec::new();
    out.push(0x5b);
    let mut i: usize = 0;
    assert(parts.take(0) =~= Seq::<Seq<u8>>::empty());
    while i < items.len()
        invariant
            i <= items.len(),
            parts == texts_of(items@),
            out@ == seq![0x5bu8] + joined(parts.take(i as int)),
        decreases items.len() - i,
    {
        if i > 0 {
            out.push(COMMA);
        }
        out.extend_from_slice(items[i].as_slice());
        proof {
            let next = parts.take(i + 1);
            assert(next.drop_last() =~= parts.take(i as int));
            assert(next.last() == items@[i as int]@);
            assert(out@ =~= seq![0x5bu8] + joined(next));
        }
        i += 1;
    }
    assert(parts.take(items.len() as int) =~= parts);
    out.push(0x5d);
    out
}

/// The members as one object.
pub fn write_object(members: &Vec<Member>) -> (out: Vec<u8>)
    ensures
        out@ == object(fields_of(members@)),
{
    let ghost parts = member_texts(fields_of(members@));
    let mut out: Vec<u8> = Vec::new();
    out.push(0x7b);
    let mut i: usize = 0;
    assert(parts.take(0) =~= Seq::<Seq<u8>>::empty());
    while i < members.len()
        invariant
            i <= members.len(),
            parts == member_texts(fields_of(members@)),
            out@ == seq![0x7bu8] + joined(parts.take(i as int)),
        decreases members.len() - i,
    {
        if i > 0 {
            out.push(COMMA);
        }
        let ghost before = out@;
        push_quoted(&mut out, members[i].key.as_str());
        out.push(COLON);
        out.extend_from_slice(members[i].value.as_slice());
        proof {
            let next = parts.take(i + 1);
            assert(next.drop_last() =~= parts.take(i as int));
            assert(next.last() == member_text(members@[i as int]@));
            assert(out@ =~= before + member_text(members@[i as int]@));
            assert(out@ =~= seq![0x7bu8] + joined(next));
        }
        i += 1;
    }
    assert(parts.take(members.len() as int) =~= parts);
    out.push(0x7d);
    out
}

} // verus!
