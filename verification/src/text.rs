//! Text helpers shared by both generators.
use vstd::prelude::*;
use vstd::string::*;
use vstd::utf8::{
    encode_scalar, encode_utf8, encode_utf8_first_scalar, is_char_boundary,
    is_char_boundary_iff_not_is_continuation_byte, is_continuation_byte, pop_first_scalar,
};

verus! {

/// The decimal digit `d` as a one-character text.
pub open spec fn digit_text(d: nat) -> Seq<char> {
    if d == 0 {
        "0"@
    } else if d == 1 {
        "1"@
    } else if d == 2 {
        "2"@
    } else if d == 3 {
        "3"@
    } else if d == 4 {
        "4"@
    } else if d == 5 {
        "5"@
    } else if d == 6 {
        "6"@
    } else if d == 7 {
        "7"@
    } else if d == 8 {
        "8"@
    } else {
        "9"@
    }
}

/// The decimal representation of `n`, without leading zeros.
pub open spec fn decimal(n: nat) -> Seq<char>
    decreases n,
{
    if n < 10 {
        digit_text(n)
    } else {
        decimal(n / 10) + digit_text(n % 10)
    }
}

fn digit_str(d: usize) -> (s: &'static str)
    requires
        d < 10,
    ensures
        s@ == digit_text(d as nat),
{
    if d == 0 {
        "0"
    } else if d == 1 {
        "1"
    } else if d == 2 {
        "2"
    } else if d == 3 {
        "3"
    } else if d == 4 {
        "4"
    } else if d == 5 {
        "5"
    } else if d == 6 {
        "6"
    } else if d == 7 {
        "7"
    } else if d == 8 {
        "8"
    } else {
        "9"
    }
}

/// Writes `n` in decimal.
pub fn decimal_text(n: usize) -> (s: String)
    ensures
        s@ == decimal(n as nat),
    decreases n,
{
    let mut s = if n >= 10 {
        decimal_text(n / 10)
    } else {
        String::new()
    };
    s.append(digit_str(n % 10));
    s
}

/// True when `c` is encoded in UTF-8 by a single byte.
pub open spec fn is_one_byte(c: char) -> bool {
    (c as u32) < 128
}

/// True when cutting the first and the last byte off the UTF-8 encoding of `s`
/// leaves a valid text: `s` has at least two characters and its first and
/// last characters are one byte each.  On any other text such a cut falls
/// inside a character or has its end before its start
/// (`lemma_strip_ends_is_byte_slice`).
pub open spec fn can_strip_ends(s: Seq<char>) -> bool {
    &&& s.len() >= 2
    &&& is_one_byte(s[0])
    &&& is_one_byte(s[s.len() - 1])
}

/// `s` without its first and last character.
pub open spec fn strip_ends(s: Seq<char>) -> Seq<char> {
    s.subrange(1, s.len() - 1)
}

/// The UTF-8 encoding of two texts one after the other is the encoding of
/// the first followed by the encoding of the second.
pub proof fn lemma_encode_concat(a: Seq<char>, b: Seq<char>)
    ensures
        encode_utf8(a + b) == encode_utf8(a) + encode_utf8(b),
    decreases a.len(),
{
    if a.len() == 0 {
        assert(a + b =~= b);
        assert(encode_utf8(a) + encode_utf8(b) =~= encode_utf8(b));
    } else {
        lemma_encode_concat(a.drop_first(), b);
        assert((a + b).drop_first() =~= a.drop_first() + b);
        assert((a + b)[0] == a[0]);
        let head = encode_scalar(a[0] as u32);
        assert(head + (encode_utf8(a.drop_first()) + encode_utf8(b)) =~= (head + encode_utf8(
            a.drop_first(),
        )) + encode_utf8(b));
    }
}

/// The encoding of a single character.
proof fn lemma_encode_single(c: char)
    ensures
        encode_utf8(seq![c]) == encode_scalar(c as u32),
{
    reveal_with_fuel(encode_utf8, 2);
    assert(seq![c].drop_first() =~= Seq::<char>::empty());
    assert(encode_utf8(seq![c]) =~= encode_scalar(c as u32));
}

/// The byte offset where the `j`-th character of `s` begins is a character
/// boundary of the encoding of `s`.
proof fn lemma_prefix_is_boundary(s: Seq<char>, j: int)
    requires
        0 <= j <= s.len(),
    ensures
        is_char_boundary(encode_utf8(s), encode_utf8(s.take(j)).len() as int),
    decreases s.len(),
{
    broadcast use vstd::utf8::encode_utf8_valid_utf8;

    if j == 0 {
        assert(s.take(0) =~= Seq::<char>::empty());
    } else {
        let b = encode_utf8(s);
        encode_utf8_first_scalar(s);
        assert(pop_first_scalar(b) =~= encode_utf8(s.drop_first()));
        lemma_prefix_is_boundary(s.drop_first(), j - 1);
        assert(s.take(j) =~= seq![s[0]] + s.drop_first().take(j - 1));
        lemma_encode_concat(seq![s[0]], s.drop_first().take(j - 1));
        lemma_encode_single(s[0]);
    }
}

/// A character takes one byte exactly when its encoding is one byte long;
/// the encoding of any character takes at least one byte.
proof fn lemma_scalar_width(c: char)
    ensures
        encode_scalar(c as u32).len() >= 1,
        encode_scalar(c as u32).len() == 1 <==> is_one_byte(c),
{
}

/// The last byte of the encoding of a character of more than one byte is a
/// continuation byte.
proof fn lemma_last_byte_of_wide_char(c: char)
    requires
        !is_one_byte(c),
    ensures
        is_continuation_byte(encode_scalar(c as u32).last()),
{
    let v = c as u32;
    assert(0x80 <= (0x80 | (v & 0x3F) as u8) <= 0xbf) by (bit_vector);
}

/// Cutting the first and the last byte off the UTF-8 encoding of `s` gives a
/// valid slice exactly when `can_strip_ends(s)`: the encoding has at least two
/// bytes and both cuts fall on character boundaries.  The slice is then the
/// encoding of `strip_ends(s)`.
pub proof fn lemma_strip_ends_is_byte_slice(s: Seq<char>)
    ensures
        ({
            let b = encode_utf8(s);
            b.len() >= 2 && is_char_boundary(b, 1) && is_char_boundary(b, b.len() - 1)
        }) <==> can_strip_ends(s),
        can_strip_ends(s) ==> encode_utf8(s).subrange(1, encode_utf8(s).len() - 1) == encode_utf8(
            strip_ends(s),
        ),
{
    broadcast use vstd::utf8::encode_utf8_valid_utf8;

    let b = encode_utf8(s);
    lemma_encoding_length(s);
    if s.len() > 0 {
        lemma_scalar_width(s[0]);
        lemma_scalar_width(s[s.len() - 1]);
        encode_utf8_first_scalar(s);
        assert(pop_first_scalar(b) =~= encode_utf8(s.drop_first()));
        let init = s.drop_last();
        let last = seq![s[s.len() - 1]];
        assert(s =~= init + last);
        lemma_encode_concat(init, last);
        lemma_encode_single(s[s.len() - 1]);
        let el = encode_scalar(s[s.len() - 1] as u32);
        lemma_encoding_length(init);
        assert(b.len() == encode_utf8(init).len() + el.len());
        if b.len() >= 2 {
            // the cut after the first byte
            reveal_with_fuel(is_char_boundary, 2);
            assert(is_char_boundary(b, 1) <==> is_one_byte(s[0]));
            // the cut before the last byte
            assert(b[b.len() - 1] == el.last());
            is_char_boundary_iff_not_is_continuation_byte(b, b.len() - 1);
            if !is_one_byte(s[s.len() - 1]) {
                lemma_last_byte_of_wide_char(s[s.len() - 1]);
            } else {
                lemma_prefix_is_boundary(s, s.len() - 1);
                assert(s.take(s.len() - 1) =~= init);
            }
        }
        if can_strip_ends(s) {
            let mid = strip_ends(s);
            let first = seq![s[0]];
            assert(init =~= first + mid);
            lemma_encode_concat(first, mid);
            lemma_encode_single(s[0]);
            assert(b =~= encode_utf8(first) + encode_utf8(mid) + el);
            assert(b.subrange(1, b.len() - 1) =~= encode_utf8(mid));
        }
    }
}

/// Cuts the first and last character off `s`, where `can_strip_ends` allows it.
pub fn strip_ends_of(s: &String) -> (r: Option<String>)
    ensures
        r is Some <==> can_strip_ends(s@),
        r matches Some(t) ==> t@ == strip_ends(s@),
{
    let n = s.as_str().unicode_len();
    if n < 2 {
        return None;
    }
    let first = s.as_str().get_char(0);
    let last = s.as_str().get_char(n - 1);
    if (first as u32) < 128 && (last as u32) < 128 {
        Some(String::from_str(s.as_str().substring_char(1, n - 1)))
    } else {
        None
    }
}

/// True when the UTF-8 encoding of `s` takes more than one byte.
pub open spec fn more_than_one_byte(s: Seq<char>) -> bool {
    encode_utf8(s).len() > 1
}

/// The UTF-8 encoding of a text has at least as many bytes as the text has
/// characters, and a character takes one byte exactly when it is below 128.
proof fn lemma_encoding_length(s: Seq<char>)
    ensures
        encode_utf8(s).len() >= s.len(),
        s.len() > 0 ==> (encode_scalar(s[0] as u32).len() == 1 <==> is_one_byte(s[0])),
        s.len() > 0 ==> encode_scalar(s[0] as u32).len() >= 1,
    decreases s.len(),
{
    if s.len() > 0 {
        lemma_encoding_length(s.drop_first());
    }
}

/// Tells whether the UTF-8 encoding of `s` takes more than one byte.
pub fn has_more_than_one_byte(s: &String) -> (b: bool)
    ensures
        b == more_than_one_byte(s@),
{
    proof {
        lemma_encoding_length(s@);
        if s@.len() > 0 {
            lemma_encoding_length(s@.drop_first());
        }
    }
    let n = s.as_str().unicode_len();
    n >= 2 || (n == 1 && (s.as_str().get_char(0) as u32) >= 128)
}

/// True when `s` begins with an underscore.
pub open spec fn starts_with_underscore(s: Seq<char>) -> bool {
    s.len() > 0 && s[0] == '_'
}

/// Tells whether `s` begins with an underscore.
pub fn begins_with_underscore(s: &String) -> (b: bool)
    ensures
        b == starts_with_underscore(s@),
{
    let n = s.as_str().unicode_len();
    n > 0 && s.as_str().get_char(0) == '_'
}

/// Tells whether the character `c` occurs in `s`.
pub fn has_char(s: &String, c: char) -> (b: bool)
    ensures
        b == s@.contains(c),
{
    let n = s.as_str().unicode_len();
    let mut i: usize = 0;
    while i < n
        invariant
            n == s@.len(),
            i <= n,
            forall|j: int| 0 <= j < i ==> s@[j] != c,
        decreases n - i,
    {
        if s.as_str().get_char(i) == c {
            return true;
        }
        i = i + 1;
    }
    false
}

/// The texts of `parts` with `sep` between each two neighbours.
pub open spec fn join(parts: Seq<Seq<char>>, sep: Seq<char>) -> Seq<char>
    decreases parts.len(),
{
    if parts.len() == 0 {
        Seq::empty()
    } else if parts.len() == 1 {
        parts[0]
    } else {
        join(parts.drop_last(), sep) + sep + parts.last()
    }
}

/// The texts held by a list of strings.
pub open spec fn texts(v: Seq<String>) -> Seq<Seq<char>> {
    v.map_values(|p: String| p@)
}

/// Joins `parts` with `sep` between each two neighbours.
pub fn join_with(parts: &Vec<String>, sep: &str) -> (r: String)
    ensures
        r@ == join(texts(parts@), sep@),
{
    let mut r = String::new();
    let n = parts.len();
    let mut i: usize = 0;
    while i < n
        invariant
            n == parts@.len(),
            i <= n,
            r@ == join(texts(parts@).take(i as int), sep@),
        decreases n - i,
    {
        let ghost before = texts(parts@).take(i as int);
        assert(texts(parts@).take(i + 1).drop_last() =~= before);
        if i > 0 {
            r.append(sep);
        }
        r.append(parts[i].as_str());
        proof {
            let now = texts(parts@).take(i + 1);
            assert(now.last() == parts@[i as int]@);
            if i == 0 {
                assert(now.len() == 1);
            }
        }
        i = i + 1;
    }
    assert(texts(parts@).take(n as int) =~= texts(parts@));
    r
}

/// How the standard library's `Debug` formatting writes a string: the text in
/// double quotes, with quotes, backslashes and unprintable characters escaped.
pub uninterp spec fn debug_text(s: Seq<char>) -> Seq<char>;

/// Calls `format!("{:?}", s)`, the standard library's `Debug` formatting of a
/// string slice.  Trusted: the result is `debug_text` of the characters of `s`,
/// the same for the same text, and, as the standard library documents, it
/// begins and ends with a double quote; no clause says what lies between.
#[verifier::external_body]
pub(crate) fn debug_quote(s: &str) -> (r: String)
    ensures
        r@ == debug_text(s@),
        r@.len() >= 2,
        r@[0] == '"',
        r@[r@.len() - 1] == '"',
{
    format!("{:?}", s)
}

} // verus!
