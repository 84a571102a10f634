//! Byte-level text handling shared by the parsers: lines, words, trimming,
//! unsigned decimals, and ASCII strings.
use vstd::prelude::*;
use vstd::utf8::*;

verus! {

/// ASCII whitespace: tab, line feed, vertical tab, form feed, carriage
/// return, space.
pub open spec fn is_ws(b: u8) -> bool {
    b == 32u8 || (9u8 <= b && b <= 13u8)
}

pub fn is_ws_byte(b: u8) -> (r: bool)
    ensures
        r == is_ws(b),
{
    b == 32u8 || (9u8 <= b && b <= 13u8)
}

pub open spec fn is_digit(b: u8) -> bool {
    48u8 <= b && b <= 57u8
}

/// The views of a sequence of byte vectors.
pub open spec fn views(v: Seq<Vec<u8>>) -> Seq<Seq<u8>> {
    v.map_values(|w: Vec<u8>| w@)
}

/// The pieces of `t` between occurrences of `sep`; always at least one.
pub open spec fn split_on(t: Seq<u8>, sep: u8) -> Seq<Seq<u8>>
    decreases t.len(),
{
    if t.len() == 0 {
        seq![Seq::<u8>::empty()]
    } else {
        let p = split_on(t.drop_last(), sep);
        if t.last() == sep {
            p.push(Seq::<u8>::empty())
        } else {
            p.update(p.len() - 1, p.last().push(t.last()))
        }
    }
}

pub proof fn lemma_split_on_nonempty(t: Seq<u8>, sep: u8)
    ensures
        split_on(t, sep).len() >= 1,
    decreases t.len(),
{
    if t.len() > 0 {
        lemma_split_on_nonempty(t.drop_last(), sep);
    }
}

/// Splits `t` at every `sep` byte.
pub fn split_bytes(t: &[u8], sep: u8) -> (r: Vec<Vec<u8>>)
    ensures
        views(r@) == split_on(t@, sep),
{
    let mut out: Vec<Vec<u8>> = Vec::new();
    let mut cur: Vec<u8> = Vec::new();
    let mut i: usize = 0;
    while i < t.len()
        invariant
            i <= t@.len(),
            views(out@).push(cur@) == split_on(t@.subrange(0, i as int), sep),
        decreases t@.len() - i,
    {
        let ghost prev = t@.subrange(0, i as int);
        assert(t@.subrange(0, i + 1).drop_last() =~= prev);
        proof {
            lemma_split_on_nonempty(prev, sep);
        }
        if t[i] == sep {
            let done = cur;
            out.push(done);
            cur = Vec::new();
            assert(views(out@).push(cur@) =~= split_on(t@.subrange(0, i + 1), sep));
        } else {
            cur.push(t[i]);
            assert(views(out@).push(cur@) =~= split_on(t@.subrange(0, i + 1), sep));
        }
        i += 1;
    }
    assert(t@.subrange(0, t@.len() as int) =~= t@);
    out.push(cur);
    assert(views(out@) =~= split_on(t@, sep));
    out
}

/// The whitespace-separated words of `l`, in order.
pub open spec fn words(l: Seq<u8>) -> Seq<Seq<u8>>
    decreases l.len(),
{
    if l.len() == 0 {
        Seq::<Seq<u8>>::empty()
    } else {
        let p = words(l.drop_last());
        if is_ws(l.last()) {
            p
        } else if l.len() >= 2 && !is_ws(l[l.len() - 2]) {
            p.update(p.len() - 1, p.last().push(l.last()))
        } else {
            p.push(seq![l.last()])
        }
    }
}

pub proof fn lemma_words_open(l: Seq<u8>)
    requires
        l.len() >= 1,
        !is_ws(l.last()),
    ensures
        words(l).len() >= 1,
    decreases l.len(),
{
    if l.len() >= 2 && !is_ws(l[l.len() - 2]) {
        lemma_words_open(l.drop_last());
    }
}

/// Splits `l` into its whitespace-separated words.
pub fn split_words(l: &[u8]) -> (r: Vec<Vec<u8>>)
    ensures
        views(r@) == words(l@),
{
    let mut out: Vec<Vec<u8>> = Vec::new();
    let mut cur: Vec<u8> = Vec::new();
    let mut i: usize = 0;
    while i < l.len()
        invariant
            i <= l@.len(),
            (i > 0 && !is_ws(l@[i - 1])) ==> views(out@).push(cur@) == words(
                l@.subrange(0, i as int),
            ),
            !(i > 0 && !is_ws(l@[i - 1])) ==> views(out@) == words(l@.subrange(0, i as int))
                && cur@.len() == 0,
        decreases l@.len() - i,
    {
        let ghost prev = l@.subrange(0, i as int);
        assert(l@.subrange(0, i + 1).drop_last() =~= prev);
        if is_ws_byte(l[i]) {
            if cur.len() > 0 || (i > 0 && !is_ws_byte(l[i - 1])) {
                let done = cur;
                out.push(done);
                cur = Vec::new();
            }
            assert(views(out@) =~= words(l@.subrange(0, i + 1)));
        } else {
            if i > 0 && !is_ws_byte(l[i - 1]) {
                proof {
                    lemma_words_open(prev);
                }
                cur.push(l[i]);
            } else {
                cur = Vec::new();
                cur.push(l[i]);
            }
            assert(views(out@).push(cur@) =~= words(l@.subrange(0, i + 1)));
        }
        i += 1;
    }
    assert(l@.subrange(0, l@.len() as int) =~= l@);
    if l.len() > 0 && !is_ws_byte(l[l.len() - 1]) {
        out.push(cur);
    }
    assert(views(out@) =~= words(l@));
    out
}

/// `l` without leading whitespace.
pub open spec fn trim_start(l: Seq<u8>) -> Seq<u8>
    decreases l.len(),
{
    if l.len() > 0 && is_ws(l[0]) {
        trim_start(l.drop_first())
    } else {
        l
    }
}

/// `l` without trailing whitespace.
pub open spec fn trim_end(l: Seq<u8>) -> Seq<u8>
    decreases l.len(),
{
    if l.len() > 0 && is_ws(l.last()) {
        trim_end(l.drop_last())
    } else {
        l
    }
}

/// `l` without leading and trailing whitespace.
pub open spec fn trim(l: Seq<u8>) -> Seq<u8> {
    trim_end(trim_start(l))
}

/// The bounds of `trim(l)` inside `l`.
pub fn trim_bounds(l: &[u8]) -> (r: (usize, usize))
    ensures
        r.0 <= r.1 <= l@.len(),
        l@.subrange(r.0 as int, r.1 as int) == trim(l@),
{
    let mut i: usize = 0;
    assert(l@.subrange(0, l@.len() as int) =~= l@);
    while i < l.len() && is_ws_byte(l[i])
        invariant
            i <= l@.len(),
            trim_start(l@.subrange(i as int, l@.len() as int)) == trim_start(l@),
        decreases l@.len() - i,
    {
        assert(l@.subrange(i as int, l@.len() as int).drop_first() =~= l@.subrange(
            i + 1,
            l@.len() as int,
        ));
        i += 1;
    }
    let ghost t = l@.subrange(i as int, l@.len() as int);
    assert(trim_start(t) == t);
    let mut e: usize = l.len();
    while e > i && is_ws_byte(l[e - 1])
        invariant
            i <= e <= l@.len(),
            trim_end(l@.subrange(i as int, e as int)) == trim_end(t),
        decreases e,
    {
        assert(l@.subrange(i as int, e as int).drop_last() =~= l@.subrange(i as int, e - 1));
        e -= 1;
    }
    (i, e)
}

/// The value of a string of decimal digits.
pub open spec fn digits_value(s: Seq<u8>) -> nat
    decreases s.len(),
{
    if s.len() == 0 {
        0
    } else {
        digits_value(s.drop_last()) * 10 + (s.last() - 48) as nat
    }
}

pub open spec fn all_digits(s: Seq<u8>) -> bool {
    forall|k: int| 0 <= k < s.len() ==> is_digit(#[trigger] s[k])
}

/// An unsigned decimal as std's integer parsing reads it: an optional `+`,
/// then one or more digits, with a value of at most `max`.
pub open spec fn parse_unsigned(s: Seq<u8>, max: nat) -> Option<nat> {
    let d = if s.len() > 0 && s[0] == 43u8 {
        s.drop_first()
    } else {
        s
    };
    if d.len() > 0 && all_digits(d) && digits_value(d) <= max {
        Some(digits_value(d))
    } else {
        None
    }
}

pub proof fn lemma_digits_value_grows(s: Seq<u8>, i: int, j: int)
    requires
        0 <= i <= j <= s.len(),
        all_digits(s),
    ensures
        digits_value(s.subrange(0, i)) <= digits_value(s.subrange(0, j)),
    decreases j - i,
{
    if i < j {
        lemma_digits_value_grows(s, i, j - 1);
        assert(s.subrange(0, j).drop_last() =~= s.subrange(0, j - 1));
    }
}

/// Reads `s` as an unsigned decimal of at most `max`.
pub fn parse_decimal(s: &[u8], max: u32) -> (r: Option<u32>)
    ensures
        match parse_unsigned(s@, max as nat) {
            Some(v) => r == Some(v as u32),
            None => r is None,
        },
{
    let start: usize = if s.len() > 0 && s[0] == 43u8 {
        1
    } else {
        0
    };
    let ghost d = s@.subrange(start as int, s@.len() as int);
    assert(d =~= (if s@.len() > 0 && s@[0] == 43u8 {
        s@.drop_first()
    } else {
        s@
    }));
    if start == s.len() {
        return None;
    }
    let mut acc: u64 = 0;
    let mut i: usize = start;
    while i < s.len()
        invariant
            start <= i <= s@.len(),
            d == s@.subrange(start as int, s@.len() as int),
            d == (if s@.len() > 0 && s@[0] == 43u8 {
                s@.drop_first()
            } else {
                s@
            }),
            acc as nat == digits_value(d.subrange(0, i - start)),
            acc <= max,
            forall|k: int| 0 <= k < i - start ==> is_digit(#[trigger] d[k]),
        decreases s@.len() - i,
    {
        let b = s[i];
        if b < 48u8 || b > 57u8 {
            assert(!is_digit(d[i - start]));
            assert(!all_digits(d));
            assert(parse_unsigned(s@, max as nat) is None);
            return None;
        }
        assert(d.subrange(0, i + 1 - start).drop_last() =~= d.subrange(0, i - start));
        let next: u64 = acc * 10 + (b - 48u8) as u64;
        assert(d[i - start] == b);
        assert(next as nat == digits_value(d.subrange(0, i + 1 - start)));
        if next > max as u64 {
            proof {
                assert(all_digits(d) ==> digits_value(d.subrange(0, i + 1 - start))
                    <= digits_value(d.subrange(0, d.len() as int))) by {
                    if all_digits(d) {
                        lemma_digits_value_grows(d, i + 1 - start, d.len() as int);
                    }
                };
                assert(d.subrange(0, d.len() as int) =~= d);
                assert(!all_digits(d) || digits_value(d) > max);
                assert(parse_unsigned(s@, max as nat) is None);
            }
            return None;
        }
        acc = next;
        i += 1;
    }
    assert(d.subrange(0, d.len() as int) =~= d);
    Some(acc as u32)
}

/// The decimal digits of `n`, without leading zeros.
pub open spec fn decimal(n: nat) -> Seq<u8>
    decreases n,
{
    if n < 10 {
        seq![(48 + n) as u8]
    } else {
        decimal(n / 10) + seq![(48 + n % 10) as u8]
    }
}

/// The decimal digits of `n`, zero-padded on the left to `width`.
pub open spec fn decimal_padded(n: nat, width: nat) -> Seq<u8> {
    if decimal(n).len() >= width {
        decimal(n)
    } else {
        Seq::new((width - decimal(n).len()) as nat, |i: int| 48u8) + decimal(n)
    }
}

/// Appends the decimal digits of `n`.
pub fn push_decimal(out: &mut Vec<u8>, n: u64)
    ensures
        final(out)@ == old(out)@ + decimal(n as nat),
    decreases n,
{
    if n >= 10 {
        push_decimal(out, n / 10);
    }
    out.push(48u8 + (n % 10) as u8);
    assert(final(out)@ =~= old(out)@ + decimal(n as nat));
}

/// Appends the decimal digits of `n`, zero-padded on the left to `width`.
pub fn push_decimal_padded(out: &mut Vec<u8>, n: u64, width: usize)
    ensures
        final(out)@ == old(out)@ + decimal_padded(n as nat, width as nat),
{
    let mut digits: Vec<u8> = Vec::new();
    push_decimal(&mut digits, n);
    let mut k: usize = digits.len();
    let ghost start = out@;
    while k < width
        invariant
            digits@ == decimal(n as nat),
            digits@.len() <= k,
            out@.len() == start.len() + (k - digits@.len()),
            k <= width || k == digits@.len(),
            forall|q: int| start.len() <= q < out@.len() ==> #[trigger] out@[q] == 48u8,
            out@.subrange(0, start.len() as int) == start,
        decreases width - k,
    {
        out.push(48u8);
        k += 1;
    }
    let ghost mid = out@;
    let mut j: usize = 0;
    while j < digits.len()
        invariant
            j <= digits@.len(),
            out@ == mid + digits@.subrange(0, j as int),
        decreases digits@.len() - j,
    {
        out.push(digits[j]);
        j += 1;
        assert(out@ =~= mid + digits@.subrange(0, j as int));
    }
    assert(digits@.subrange(0, digits@.len() as int) =~= digits@);
    if digits.len() >= width {
        assert(mid =~= start);
        assert(final(out)@ =~= start + decimal_padded(n as nat, width as nat));
    } else {
        assert(mid.subrange(start.len() as int, mid.len() as int) =~= Seq::new(
            (width - decimal(n as nat).len()) as nat,
            |i: int| 48u8,
        ));
        assert(mid =~= start + mid.subrange(start.len() as int, mid.len() as int));
        assert(final(out)@ =~= start + decimal_padded(n as nat, width as nat));
    }
}

/// Each byte read as the character of the same code.
pub open spec fn ascii_chars(b: Seq<u8>) -> Seq<char> {
    b.map_values(|x: u8| x as char)
}

pub open spec fn all_ascii(b: Seq<u8>) -> bool {
    forall|k: int| 0 <= k < b.len() ==> #[trigger] b[k] < 128u8
}

/// Relies on std's `String::from_utf8`: it succeeds exactly on valid UTF-8,
/// and the string then holds the characters those bytes encode.
#[verifier::external_body]
pub(crate) fn utf8_string(bytes: Vec<u8>) -> (r: Option<String>)
    ensures
        r is Some <==> valid_utf8(bytes@),
        r matches Some(s) ==> s@ == decode_utf8(bytes@),
{
    String::from_utf8(bytes).ok()
}

/// The string of ASCII bytes, one character per byte.
pub fn ascii_string(bytes: Vec<u8>) -> (r: String)
    requires
        all_ascii(bytes@),
    ensures
        r@ == ascii_chars(bytes@),
{
    let ghost c = ascii_chars(bytes@);
    proof {
        assert(is_ascii_chars(c));
        is_ascii_chars_encode_utf8(c);
        assert(encode_utf8(c) =~= bytes@);
        encode_utf8_valid_utf8(c);
        encode_utf8_decode_utf8(c);
    }
    match utf8_string(bytes) {
        Some(s) => s,
        None => String::new(),
    }
}

pub proof fn lemma_decimal_ascii(n: nat)
    ensures
        all_ascii(decimal(n)),
    decreases n,
{
    if n >= 10 {
        lemma_decimal_ascii(n / 10);
        assert(all_ascii(decimal(n))) by {
            let d = decimal(n);
            assert forall|k: int| 0 <= k < d.len() implies #[trigger] d[k] < 128u8 by {
                if k < decimal(n / 10).len() {
                    assert(d[k] == decimal(n / 10)[k]);
                }
            }
        }
    }
}

pub proof fn lemma_concat_ascii(a: Seq<u8>, b: Seq<u8>)
    requires
        all_ascii(a),
        all_ascii(b),
    ensures
        all_ascii(a + b),
{
    assert forall|k: int| 0 <= k < (a + b).len() implies #[trigger] (a + b)[k] < 128u8 by {
        if k < a.len() {
            assert((a + b)[k] == a[k]);
        } else {
            assert((a + b)[k] == b[k - a.len()]);
        }
    }
}

} // verus!
