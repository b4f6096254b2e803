use vstd::prelude::*;

verus! {

// ---------------------------------------------------------------------------
// Characters and digits
// ---------------------------------------------------------------------------
/// The character for one hexadecimal digit, lower case.
pub open spec fn hex_char_lower(d: u8) -> char
    recommends
        d < 16,
{
    if d < 10 {
        ((48 + d) as u8) as char
    } else {
        ((87 + d) as u8) as char
    }
}

/// The character for one hexadecimal digit, upper case.
pub open spec fn hex_char_upper(d: u8) -> char
    recommends
        d < 16,
{
    if d < 10 {
        ((48 + d) as u8) as char
    } else {
        ((55 + d) as u8) as char
    }
}

/// The character for one decimal digit.
pub open spec fn dec_char(d: u8) -> char
    recommends
        d < 10,
{
    ((48 + d) as u8) as char
}

/// The character for one binary digit.
pub open spec fn bit_char(d: u8) -> char
    recommends
        d < 2,
{
    ((48 + d) as u8) as char
}

// ---------------------------------------------------------------------------
// Number renderings
// ---------------------------------------------------------------------------
/// Two lower-case hex digits, as in `3f`.
pub open spec fn hex2_lower(v: u8) -> Seq<char> {
    seq![hex_char_lower(v / 16), hex_char_lower(v % 16)]
}

/// Two upper-case hex digits, as in `3F`.
pub open spec fn hex2_upper(v: u8) -> Seq<char> {
    seq![hex_char_upper(v / 16), hex_char_upper(v % 16)]
}

/// Four lower-case hex digits, as in `80a2`.
pub open spec fn hex4_lower(v: u16) -> Seq<char> {
    hex2_lower((v / 256) as u8) + hex2_lower((v % 256) as u8)
}

/// Four upper-case hex digits, as in `80A2`.
pub open spec fn hex4_upper(v: u16) -> Seq<char> {
    hex2_upper((v / 256) as u8) + hex2_upper((v % 256) as u8)
}

/// The decimal rendering of a byte, without leading zeros.
pub open spec fn dec_u8(v: u8) -> Seq<char> {
    if v < 10 {
        seq![dec_char(v)]
    } else if v < 100 {
        seq![dec_char(v / 10), dec_char(v % 10)]
    } else {
        seq![dec_char(v / 100), dec_char((v / 10) % 10), dec_char(v % 10)]
    }
}

/// The rendering of a byte as `0b` followed by its eight binary digits.
pub open spec fn bin8(v: u8) -> Seq<char> {
    seq![
        '0',
        'b',
        bit_char(v / 128),
        bit_char((v / 64) % 2),
        bit_char((v / 32) % 2),
        bit_char((v / 16) % 2),
        bit_char((v / 8) % 2),
        bit_char((v / 4) % 2),
        bit_char((v / 2) % 2),
        bit_char(v % 2),
    ]
}

/// A run of spaces.
pub open spec fn spaces(n: nat) -> Seq<char> {
    Seq::new(n, |i: int| ' ')
}

/// Text padded on the right with spaces to at least 25 characters,
/// as the column format of the serializer has it.
pub open spec fn pad25(t: Seq<char>) -> Seq<char> {
    if t.len() >= 25 {
        t
    } else {
        t + spaces((25 - t.len()) as nat)
    }
}

// ---------------------------------------------------------------------------
// Executable building blocks
// ---------------------------------------------------------------------------
/// Relies on std's `String::push`: appends exactly the one character.
#[verifier::external_body]
pub fn push_char(s: &mut String, c: char)
    ensures
        final(s)@ == old(s)@ + seq![c],
{
    s.push(c);
}

pub fn append_hex_digit_lower(s: &mut String, d: u8)
    requires
        d < 16,
    ensures
        final(s)@ == old(s)@ + seq![hex_char_lower(d)],
{
    if d < 10 {
        push_char(s, (48 + d) as char);
    } else {
        push_char(s, (87 + d) as char);
    }
}

pub fn append_hex_digit_upper(s: &mut String, d: u8)
    requires
        d < 16,
    ensures
        final(s)@ == old(s)@ + seq![hex_char_upper(d)],
{
    if d < 10 {
        push_char(s, (48 + d) as char);
    } else {
        push_char(s, (55 + d) as char);
    }
}

pub fn append_hex2_lower(s: &mut String, v: u8)
    ensures
        final(s)@ == old(s)@ + hex2_lower(v),
{
    append_hex_digit_lower(s, v / 16);
    append_hex_digit_lower(s, v % 16);
    assert(final(s)@ =~= old(s)@ + hex2_lower(v));
}

pub fn append_hex2_upper(s: &mut String, v: u8)
    ensures
        final(s)@ == old(s)@ + hex2_upper(v),
{
    append_hex_digit_upper(s, v / 16);
    append_hex_digit_upper(s, v % 16);
    assert(final(s)@ =~= old(s)@ + hex2_upper(v));
}

pub fn append_hex4_lower(s: &mut String, v: u16)
    ensures
        final(s)@ == old(s)@ + hex4_lower(v),
{
    append_hex2_lower(s, (v / 256) as u8);
    append_hex2_lower(s, (v % 256) as u8);
    assert(final(s)@ =~= old(s)@ + hex4_lower(v));
}

pub fn append_hex4_upper(s: &mut String, v: u16)
    ensures
        final(s)@ == old(s)@ + hex4_upper(v),
{
    append_hex2_upper(s, (v / 256) as u8);
    append_hex2_upper(s, (v % 256) as u8);
    assert(final(s)@ =~= old(s)@ + hex4_upper(v));
}

pub fn append_dec_u8(s: &mut String, v: u8)
    ensures
        final(s)@ == old(s)@ + dec_u8(v),
{
    if v < 10 {
        push_char(s, (48 + v) as char);
    } else if v < 100 {
        push_char(s, (48 + v / 10) as char);
        push_char(s, (48 + v % 10) as char);
    } else {
        push_char(s, (48 + v / 100) as char);
        push_char(s, (48 + (v / 10) % 10) as char);
        push_char(s, (48 + v % 10) as char);
    }
    assert(final(s)@ =~= old(s)@ + dec_u8(v));
}

fn append_bit(s: &mut String, d: u8)
    requires
        d < 2,
    ensures
        final(s)@ == old(s)@ + seq![bit_char(d)],
{
    push_char(s, (48 + d) as char);
}

pub fn append_bin8(s: &mut String, v: u8)
    ensures
        final(s)@ == old(s)@ + bin8(v),
{
    s.append("0b");
    proof {
        reveal_strlit("0b");
    }
    append_bit(s, v / 128);
    append_bit(s, (v / 64) % 2);
    append_bit(s, (v / 32) % 2);
    append_bit(s, (v / 16) % 2);
    append_bit(s, (v / 8) % 2);
    append_bit(s, (v / 4) % 2);
    append_bit(s, (v / 2) % 2);
    append_bit(s, v % 2);
    assert(final(s)@ =~= old(s)@ + bin8(v));
}

/// How many characters `t` holds, counted only up to 25.
fn char_len_upto_25(t: &str) -> (n: usize)
    ensures
        n == if t@.len() >= 25 { 25int } else { t@.len() as int },
{
    broadcast use vstd::string::next_postcondition, vstd::string::axiom_spec_iter;

    let mut it = t.chars();
    let mut n: usize = 0;
    loop
        invariant
            n <= 25,
            n <= t@.len(),
            vstd::std_specs::iter::IteratorSpec::remaining(&it) == t@.skip(n as int),
            vstd::std_specs::iter::IteratorSpec::obeys_prophetic_iter_laws(&it),
        decreases t@.len() - n, 25 - n,
    {
        if n == 25 {
            return n;
        }
        let c = it.next();
        match c {
            Some(_) => {
                proof {
                    assert(t@.skip(n as int).drop_first() =~= t@.skip(n + 1));
                }
                n = n + 1;
            },
            None => {
                proof {
                    assert(t@.skip(n as int).len() == 0);
                }
                return n;
            },
        }
    }
}

/// Appends `t` padded on the right with spaces to at least 25 characters.
pub fn append_padded_25(s: &mut String, t: &str)
    ensures
        final(s)@ == old(s)@ + pad25(t@),
{
    let n = char_len_upto_25(t);
    s.append(t);
    let mut i = n;
    while i < 25
        invariant
            n <= i <= 25,
            n == if t@.len() >= 25 { 25int } else { t@.len() as int },
            s@ == old(s)@ + t@ + spaces((i - n) as nat),
        decreases 25 - i,
    {
        push_char(s, ' ');
        proof {
            assert(spaces((i + 1 - n) as nat) =~= spaces((i - n) as nat) + seq![' ']);
        }
        assert(s@ =~= old(s)@ + t@ + spaces((i + 1 - n) as nat));
        i = i + 1;
    }
    proof {
        if t@.len() >= 25 {
            assert(spaces(0) =~= Seq::<char>::empty());
            assert(s@ =~= old(s)@ + pad25(t@));
        } else {
            assert(s@ =~= old(s)@ + pad25(t@));
        }
    }
}

/// The lower-case hex digits of a nonnegative number, most significant
/// first, without leading zeros.
pub open spec fn hex_rec(v: int) -> Seq<char>
    decreases v,
{
    if v < 16 {
        seq![hex_char_lower(v as u8)]
    } else {
        hex_rec(v / 16) + seq![hex_char_lower((v % 16) as u8)]
    }
}

/// A number in lower-case hex, zero-padded to at least four digits.
pub open spec fn hex_min4(v: int) -> Seq<char> {
    if v < 0x10000 {
        hex4_lower(v as u16)
    } else {
        hex_rec(v)
    }
}

fn append_hex_rec(s: &mut String, v: usize)
    ensures
        final(s)@ == old(s)@ + hex_rec(v as int),
    decreases v,
{
    if v < 16 {
        append_hex_digit_lower(s, v as u8);
    } else {
        append_hex_rec(s, v / 16);
        append_hex_digit_lower(s, (v % 16) as u8);
        assert(final(s)@ =~= old(s)@ + hex_rec(v as int));
    }
}

/// Appends a number in lower-case hex, zero-padded to at least four digits.
pub fn append_hex_min4(s: &mut String, v: usize)
    ensures
        final(s)@ == old(s)@ + hex_min4(v as int),
{
    if v < 65536 {
        append_hex4_lower(s, v as u16);
    } else {
        append_hex_rec(s, v);
    }
}

} // verus!
