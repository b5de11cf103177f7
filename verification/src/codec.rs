//! The canonical text codec: decimal digits, the decimal rendering of
//! timestamps, and the zero-padded three-digit groups that render each byte of
//! an identifier.

use vstd::prelude::*;

verus! {

/// The decode error for a malformed numeric group: a group with a non-digit
/// character or a value outside 0..=255 is rejected with this error rather
/// than aborting.
#[derive(Clone, Copy, Debug, PartialEq, Eq, Structural)]
pub enum DecodeError {
    InvalidGroup,
}

/// Whether `c` is a decimal digit.
pub open spec fn is_digit(c: char) -> bool {
    48 <= c as int && c as int <= 57
}

/// The numeric value of a decimal digit; zero for any other character.
pub open spec fn digit_val(c: char) -> nat {
    if is_digit(c) {
        (c as int - 48) as nat
    } else {
        0
    }
}

/// The decimal digit character for a value below ten.
pub open spec fn digit_char(d: nat) -> char {
    if d == 0 {
        '0'
    } else if d == 1 {
        '1'
    } else if d == 2 {
        '2'
    } else if d == 3 {
        '3'
    } else if d == 4 {
        '4'
    } else if d == 5 {
        '5'
    } else if d == 6 {
        '6'
    } else if d == 7 {
        '7'
    } else if d == 8 {
        '8'
    } else {
        '9'
    }
}

/// Every character of `s` is a decimal digit.
pub open spec fn all_digits(s: Seq<char>) -> bool {
    forall|i: int| 0 <= i < s.len() ==> is_digit(#[trigger] s[i])
}

/// The value of a string of decimal digits, most significant first.
pub open spec fn dec_val(s: Seq<char>) -> nat
    decreases s.len(),
{
    if s.len() == 0 {
        0
    } else {
        dec_val(s.drop_last()) * 10 + digit_val(s.last())
    }
}

/// The canonical decimal rendering of `n`: no leading zeros, a single `'0'`
/// for zero.
pub open spec fn dec_digits(n: nat) -> Seq<char>
    decreases n,
{
    if n < 10 {
        seq![digit_char(n)]
    } else {
        dec_digits(n / 10).push(digit_char(n % 10))
    }
}

/// `digit_char` produces a digit and `digit_val` reads it back.
pub proof fn lemma_digit_char_val(d: nat)
    requires
        d < 10,
    ensures
        is_digit(digit_char(d)),
        digit_val(digit_char(d)) == d,
{
}

/// Appending a digit multiplies the value by ten and adds the digit.
pub proof fn lemma_dec_val_push(s: Seq<char>, c: char)
    ensures
        dec_val(s.push(c)) == dec_val(s) * 10 + digit_val(c),
{
    assert(s.push(c).drop_last() =~= s);
    assert(s.push(c).last() == c);
}

/// The canonical decimal rendering consists of digits and reads back to the
/// same number.
pub proof fn lemma_dec_digits_val(n: nat)
    ensures
        dec_digits(n).len() >= 1,
        all_digits(dec_digits(n)),
        dec_val(dec_digits(n)) == n,
    decreases n,
{
    if n < 10 {
        lemma_digit_char_val(n);
        let s = dec_digits(n);
        assert(s.drop_last() =~= Seq::<char>::empty());
        assert(dec_val(s) == dec_val(s.drop_last()) * 10 + digit_val(s.last()));
    } else {
        lemma_dec_digits_val(n / 10);
        lemma_digit_char_val(n % 10);
        lemma_dec_val_push(dec_digits(n / 10), digit_char(n % 10));
        assert(forall|i: int|
            0 <= i < dec_digits(n).len() ==> is_digit(#[trigger] dec_digits(n)[i]));
    }
}

/// The value of a prefix never exceeds the value of the whole digit string.
pub proof fn lemma_dec_val_prefix(s: Seq<char>, i: int)
    requires
        0 <= i <= s.len(),
    ensures
        dec_val(s.take(i)) <= dec_val(s),
    decreases s.len(),
{
    if i < s.len() {
        lemma_dec_val_prefix(s.drop_last(), i);
        assert(s.drop_last().take(i) =~= s.take(i));
    } else {
        assert(s.take(i) =~= s);
    }
}

/// A single-character string slice holding the decimal digit `d`.
fn digit_str(d: u8) -> (r: &'static str)
    requires
        d < 10,
    ensures
        r@ =~= seq![digit_char(d as nat)],
{
    proof {
        reveal_strlit("0");
        reveal_strlit("1");
        reveal_strlit("2");
        reveal_strlit("3");
        reveal_strlit("4");
        reveal_strlit("5");
        reveal_strlit("6");
        reveal_strlit("7");
        reveal_strlit("8");
        reveal_strlit("9");
    }
    if d == 0 {
        "0"
    } else if d == 1 {
        "1"
    } else if d == 2 {
        "2"
    } else if d == 3 {
        "3"
    } else if d == 4 {
        "4"
    } else if d == 5 {
        "5"
    } else if d == 6 {
        "6"
    } else if d == 7 {
        "7"
    } else if d == 8 {
        "8"
    } else {
        "9"
    }
}

/// Appends the decimal digit `d` to `out`.
fn push_digit(out: &mut String, d: u8)
    requires
        d < 10,
    ensures
        final(out)@ == old(out)@.push(digit_char(d as nat)),
{
    let s = digit_str(d);
    out.append(s);
    proof {
        assert(old(out)@ + s@ =~= old(out)@.push(digit_char(d as nat)));
    }
}

/// Renders `n` in decimal, most significant digit first, no leading zeros.
pub fn u64_dec_string(n: u64) -> (r: String)
    ensures
        r@ == dec_digits(n as nat),
    decreases n,
{
    if n < 10 {
        let mut s = String::new();
        push_digit(&mut s, n as u8);
        proof {
            assert(s@ =~= seq![digit_char(n as nat)]);
        }
        s
    } else {
        let mut s = u64_dec_string(n / 10);
        push_digit(&mut s, (n % 10) as u8);
        s
    }
}

/// Parses a string of decimal digits as a `u64`: `Some` exactly when the
/// string is nonempty, all digits, and the value fits.
pub fn parse_u64(s: &str) -> (r: Option<u64>)
    ensures
        r is Some <==> s@.len() > 0 && all_digits(s@) && dec_val(s@) <= u64::MAX,
        r is Some ==> r.unwrap() as nat == dec_val(s@),
{
    let n = s.unicode_len();
    if n == 0 {
        return None;
    }
    let mut acc: u64 = 0;
    let mut i: usize = 0;
    while i < n
        invariant
            0 < n == s@.len(),
            i <= n,
            all_digits(s@.take(i as int)),
            acc as nat == dec_val(s@.take(i as int)),
        decreases n - i,
    {
        let c = s.get_char(i);
        let u = c as u32;
        if u < 48 || u > 57 {
            assert(!is_digit(s@[i as int]));
            return None;
        }
        let d = (u - 48) as u64;
        proof {
            lemma_dec_val_push(s@.take(i as int), s@[i as int]);
            assert(s@.take(i as int).push(s@[i as int]) =~= s@.take(i + 1));
        }
        let wide: u128 = (acc as u128) * 10 + (d as u128);
        if wide > u64::MAX as u128 {
            proof {
                lemma_dec_val_prefix(s@, i + 1);
            }
            return None;
        }
        acc = wide as u64;
        i += 1;
    }
    proof {
        assert(s@.take(n as int) =~= s@);
    }
    Some(acc)
}

/// The zero-padded three-digit decimal group for one byte: `000` to `255`.
pub open spec fn group3(b: u8) -> Seq<char> {
    seq![
        digit_char((b / 100) as nat),
        digit_char(((b / 10) % 10) as nat),
        digit_char((b % 10) as nat),
    ]
}

/// The segment text of a byte sequence: the three-digit groups of all bytes,
/// most significant byte first, with no separator.
pub open spec fn encode_groups(s: Seq<u8>) -> Seq<char>
    decreases s.len(),
{
    if s.len() == 0 {
        Seq::empty()
    } else {
        encode_groups(s.drop_last()) + group3(s.last())
    }
}

/// A run of `n` padding zeros.
pub open spec fn pad_zeros(n: nat) -> Seq<char> {
    Seq::new(n, |i: int| '0')
}

/// A segment normalized to width `w`: too-long input loses its leading
/// (most-significant) characters, too-short input gains leading zeros.
pub open spec fn norm_segment(s: Seq<char>, w: nat) -> Seq<char> {
    if s.len() >= 3 * w {
        s.skip(s.len() - 3 * w)
    } else {
        pad_zeros((3 * w - s.len()) as nat) + s
    }
}

/// The `i`-th three-character group of the normalized segment.
pub open spec fn group_at(s: Seq<char>, w: nat, i: int) -> Seq<char> {
    norm_segment(s, w).subrange(3 * i, 3 * i + 3)
}

/// Every group of the normalized segment is three decimal digits with a value
/// of at most 255.
pub open spec fn seg_ok(s: Seq<char>, w: nat) -> bool {
    forall|i: int|
        0 <= i < w ==> all_digits(#[trigger] group_at(s, w, i)) && dec_val(group_at(s, w, i))
            <= 255
}

/// The bytes recovered from the normalized segment, one per group.
pub open spec fn seg_bytes(s: Seq<char>, w: nat) -> Seq<u8> {
    Seq::new(w, |i: int| dec_val(group_at(s, w, i)) as u8)
}

/// The value of a three-digit group, spelled positionally.
pub proof fn lemma_dec_val3(g: Seq<char>)
    requires
        g.len() == 3,
    ensures
        dec_val(g) == digit_val(g[0]) * 100 + digit_val(g[1]) * 10 + digit_val(g[2]),
{
    let d1 = g.drop_last();
    let d2 = d1.drop_last();
    assert(d2.drop_last() =~= Seq::<char>::empty());
    assert(dec_val(g) == dec_val(d1) * 10 + digit_val(g[2]));
    assert(dec_val(d1) == dec_val(d2) * 10 + digit_val(g[1]));
    assert(d2.last() == g[0]);
    assert(dec_val(Seq::<char>::empty()) == 0);
    assert(dec_val(d2) == digit_val(g[0]));
}

/// A byte's group is three digits and reads back to the byte.
pub proof fn lemma_group3_val(b: u8)
    ensures
        group3(b).len() == 3,
        all_digits(group3(b)),
        dec_val(group3(b)) == b,
{
    lemma_digit_char_val((b / 100) as nat);
    lemma_digit_char_val(((b / 10) % 10) as nat);
    lemma_digit_char_val((b % 10) as nat);
    lemma_dec_val3(group3(b));
    assert(b == (b / 100) * 100 + ((b / 10) % 10) * 10 + (b % 10)) by (bit_vector);
}

/// The segment text has three digits per byte.
pub proof fn lemma_encode_groups_props(s: Seq<u8>)
    ensures
        encode_groups(s).len() == 3 * s.len(),
        all_digits(encode_groups(s)),
    decreases s.len(),
{
    if s.len() > 0 {
        lemma_encode_groups_props(s.drop_last());
        lemma_group3_val(s.last());
    }
}

/// Appends the three-digit group of `b` to `out`.
fn push_group(out: &mut String, b: u8)
    ensures
        final(out)@ == old(out)@ + group3(b),
{
    push_digit(out, b / 100);
    push_digit(out, (b / 10) % 10);
    push_digit(out, b % 10);
    proof {
        assert(final(out)@ =~= old(out)@ + group3(b));
    }
}

/// Renders a byte vector as its segment text: three decimal digits per byte.
pub fn encode_groups_string(v: &Vec<u8>) -> (r: String)
    ensures
        r@ == encode_groups(v@),
{
    let n = v.len();
    let mut out = String::new();
    let mut i: usize = 0;
    while i < n
        invariant
            i <= n,
            n == v@.len(),
            out@ == encode_groups(v@.take(i as int)),
        decreases n - i,
    {
        push_group(&mut out, v[i]);
        proof {
            assert(v@.take(i + 1).drop_last() =~= v@.take(i as int));
            assert(v@.take(i + 1).last() == v@[i as int]);
        }
        i += 1;
    }
    proof {
        assert(v@.take(n as int) =~= v@);
    }
    out
}

/// One character of the segment normalized to width `w`: padding zeros on the
/// left of short input, the trailing characters of long input.
fn seg_char(s: &str, w: usize, p: usize) -> (c: char)
    requires
        w <= usize::MAX / 3,
        p < 3 * w,
    ensures
        c == norm_segment(s@, w as nat)[p as int],
{
    let l = s.unicode_len();
    if l >= 3 * w {
        let off = l - 3 * w;
        s.get_char(p + off)
    } else {
        let pad = 3 * w - l;
        if p < pad {
            '0'
        } else {
            s.get_char(p - pad)
        }
    }
}

/// Decodes a segment at width `w`: normalizes the length, then parses each
/// three-digit group, rejecting a non-digit character or a value over 255.
pub fn decode_groups(s: &str, w: usize) -> (r: Result<Vec<u8>, DecodeError>)
    requires
        w <= usize::MAX / 3,
    ensures
        r is Ok <==> seg_ok(s@, w as nat),
        r is Ok ==> r.unwrap()@ == seg_bytes(s@, w as nat),
        r is Err ==> r.unwrap_err() == DecodeError::InvalidGroup,
{
    let mut out: Vec<u8> = Vec::new();
    let mut g: usize = 0;
    while g < w
        invariant
            g <= w,
            w <= usize::MAX / 3,
            out@.len() == g,
            forall|i: int|
                0 <= i < g ==> all_digits(#[trigger] group_at(s@, w as nat, i)) && dec_val(
                    group_at(s@, w as nat, i),
                ) <= 255,
            forall|i: int| 0 <= i < g ==> out@[i] == seg_bytes(s@, w as nat)[i],
        decreases w - g,
    {
        let c0 = seg_char(s, w, 3 * g);
        let c1 = seg_char(s, w, 3 * g + 1);
        let c2 = seg_char(s, w, 3 * g + 2);
        proof {
            assert(group_at(s@, w as nat, g as int)[0] == norm_segment(s@, w as nat)[3 * g]);
            assert(group_at(s@, w as nat, g as int)[1] == norm_segment(s@, w as nat)[3 * g + 1]);
            assert(group_at(s@, w as nat, g as int)[2] == norm_segment(s@, w as nat)[3 * g + 2]);
        }
        let u0 = c0 as u32;
        let u1 = c1 as u32;
        let u2 = c2 as u32;
        if u0 < 48 || u0 > 57 || u1 < 48 || u1 > 57 || u2 < 48 || u2 > 57 {
            return Err(DecodeError::InvalidGroup);
        }
        let val = (u0 - 48) * 100 + (u1 - 48) * 10 + (u2 - 48);
        proof {
            lemma_dec_val3(group_at(s@, w as nat, g as int));
        }
        if val > 255 {
            return Err(DecodeError::InvalidGroup);
        }
        out.push(val as u8);
        g += 1;
    }
    Ok(out)
}

/// The `i`-th three-character slice of a segment text is the `i`-th byte's
/// group.
pub proof fn lemma_encode_groups_index(s: Seq<u8>, i: int)
    requires
        0 <= i < s.len(),
    ensures
        encode_groups(s).subrange(3 * i, 3 * i + 3) =~= group3(s[i]),
    decreases s.len(),
{
    lemma_encode_groups_props(s.drop_last());
    lemma_encode_groups_props(s);
    if i == s.len() - 1 {
        assert(encode_groups(s) == encode_groups(s.drop_last()) + group3(s.last()));
    } else {
        lemma_encode_groups_index(s.drop_last(), i);
        assert(s.drop_last()[i] == s[i]);
        assert(encode_groups(s).subrange(3 * i, 3 * i + 3) =~= encode_groups(
            s.drop_last(),
        ).subrange(3 * i, 3 * i + 3));
    }
}

/// A segment rendered from bytes decodes back to those bytes: every group is
/// well formed and reads back to its byte.
pub proof fn lemma_seg_round_trip(bytes: Seq<u8>)
    ensures
        seg_ok(encode_groups(bytes), bytes.len()),
        seg_bytes(encode_groups(bytes), bytes.len()) =~= bytes,
{
    let w = bytes.len();
    let g = encode_groups(bytes);
    lemma_encode_groups_props(bytes);
    assert(norm_segment(g, w) =~= g);
    assert forall|i: int| 0 <= i < w implies all_digits(#[trigger] group_at(g, w, i)) && dec_val(
        group_at(g, w, i),
    ) == bytes[i] by {
        lemma_encode_groups_index(bytes, i);
        lemma_group3_val(bytes[i]);
        assert(group_at(g, w, i) =~= group3(bytes[i]));
    }
    assert(seg_bytes(g, w) =~= bytes);
}

/// Decimal digits are never the colon separator.
pub proof fn lemma_digits_not_colon(s: Seq<char>)
    requires
        all_digits(s),
    ensures
        forall|i: int| 0 <= i < s.len() ==> s[i] != ':',
{
    assert forall|i: int| 0 <= i < s.len() implies s[i] != ':' by {
        assert(is_digit(s[i]));
        assert(':' as int == 58);
    }
}

/// Lexicographic order on character sequences by code point, as Rust orders
/// strings.
pub open spec fn lex_lt_chars(a: Seq<char>, b: Seq<char>) -> bool
    decreases a.len(),
{
    if a.len() == 0 || b.len() == 0 {
        b.len() > 0
    } else if a.first() != b.first() {
        (a.first() as int) < (b.first() as int)
    } else {
        lex_lt_chars(a.drop_first(), b.drop_first())
    }
}

/// Equal prefixes shift the lexicographic comparison to the tails.
pub proof fn lemma_lex_lt_chars_skip(a: Seq<char>, b: Seq<char>, i: int)
    requires
        0 <= i <= a.len(),
        i <= b.len(),
        forall|j: int| 0 <= j < i ==> a[j] == b[j],
    ensures
        lex_lt_chars(a, b) == lex_lt_chars(a.skip(i), b.skip(i)),
    decreases i,
{
    if i > 0 {
        if a.len() == 0 || b.len() == 0 {
        } else {
            lemma_lex_lt_chars_skip(a.drop_first(), b.drop_first(), i - 1);
            assert(a.drop_first().skip(i - 1) =~= a.skip(i));
            assert(b.drop_first().skip(i - 1) =~= b.skip(i));
        }
    } else {
        assert(a.skip(0) =~= a);
        assert(b.skip(0) =~= b);
    }
}

/// Lexicographic comparison of two strings by code point.
pub fn str_lt(a: &str, b: &str) -> (r: bool)
    ensures
        r == lex_lt_chars(a@, b@),
{
    let na = a.unicode_len();
    let nb = b.unicode_len();
    let n = if na < nb {
        na
    } else {
        nb
    };
    let mut i: usize = 0;
    while i < n
        invariant
            i <= n,
            na == a@.len(),
            nb == b@.len(),
            n == if na < nb {
                na
            } else {
                nb
            },
            forall|j: int| 0 <= j < i ==> a@[j] == b@[j],
        decreases n - i,
    {
        let x = a.get_char(i);
        let y = b.get_char(i);
        if x != y {
            proof {
                lemma_lex_lt_chars_skip(a@, b@, i as int);
                assert(a@.skip(i as int).first() == a@[i as int]);
                assert(b@.skip(i as int).first() == b@[i as int]);
            }
            return (x as u32) < (y as u32);
        }
        i += 1;
    }
    proof {
        lemma_lex_lt_chars_skip(a@, b@, n as int);
    }
    na < nb
}

/// The index of the first `':'` at or after `from`; the length when there is
/// none.
pub open spec fn first_colon(s: Seq<char>, from: nat) -> nat
    decreases s.len() - from,
{
    if from >= s.len() {
        s.len()
    } else if s[from as int] == ':' {
        from
    } else {
        first_colon(s, from + 1)
    }
}

/// `first_colon` is determined by a witness: no colon before `k`, and `k`
/// either holds a colon or is the end.
pub proof fn lemma_first_colon_is(s: Seq<char>, from: nat, k: nat)
    requires
        from <= k <= s.len(),
        forall|j: int| from <= j < k ==> s[j] != ':',
        k < s.len() ==> s[k as int] == ':',
    ensures
        first_colon(s, from) == k,
    decreases s.len() - from,
{
    if from < s.len() && s[from as int] != ':' {
        lemma_first_colon_is(s, from + 1, k);
    }
}

/// Finds the first `':'` at or after `from`; returns the length when there is
/// none.
pub fn find_colon(s: &str, from: usize) -> (r: usize)
    requires
        from <= s@.len(),
    ensures
        r as nat == first_colon(s@, from as nat),
        from <= r <= s@.len(),
{
    let n = s.unicode_len();
    let mut i: usize = from;
    while i < n
        invariant
            from <= i <= n,
            n == s@.len(),
            first_colon(s@, from as nat) == first_colon(s@, i as nat),
        decreases n - i,
    {
        let c = s.get_char(i);
        if c == ':' {
            return i;
        }
        i += 1;
    }
    n
}

} // verus!
