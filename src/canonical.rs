//! A canonical text form of a consensus's relays, and the proof that reading
//! it back gives the same relays.
use vstd::prelude::*;
use vstd::utf8::*;
use crate::directory::{
    after_first, bandwidth_from, bandwidth_key, base64_standard_decode, consensus_relays,
    flag_of_word, flags_of_words, ids_unique, insert_relay, is_tagged, line_bandwidth,
    parse_record, record_bandwidth, record_flags, relays_of_lines, standard_base64, FlagView,
    RelayView,
};
use crate::directory::{relay_views, NetworkConsensus, RelayDescriptor, RelayFlag};
use crate::network::cells::push_all;
use crate::proxy::socks5::dotted_quad;
use crate::text::{
    all_digits, decimal, digits_value, push_decimal, views, is_digit, is_ws, parse_unsigned, split_on, trim,
    trim_end, trim_start, words,
};

verus! {

/// Lines, each followed by `sep`.
pub open spec fn joined(ls: Seq<Seq<u8>>, sep: u8) -> Seq<u8>
    decreases ls.len(),
{
    if ls.len() == 0 {
        Seq::<u8>::empty()
    } else {
        joined(ls.drop_last(), sep) + ls.last() + seq![sep]
    }
}

/// Words separated by single spaces.
pub open spec fn spaced(ws: Seq<Seq<u8>>) -> Seq<u8>
    decreases ws.len(),
{
    if ws.len() == 0 {
        Seq::<u8>::empty()
    } else if ws.len() == 1 {
        ws[0]
    } else {
        spaced(ws.drop_last()) + seq![32u8] + ws.last()
    }
}

pub open spec fn free_of(l: Seq<u8>, sep: u8) -> bool {
    forall|i: int| 0 <= i < l.len() ==> l[i] != sep
}

/// A word: at least one byte, no whitespace.
pub open spec fn word_ok(w: Seq<u8>) -> bool {
    w.len() > 0 && forall|i: int| 0 <= i < w.len() ==> !is_ws(#[trigger] w[i])
}

pub proof fn lemma_split_append(x: Seq<u8>, l: Seq<u8>, sep: u8)
    requires
        free_of(l, sep),
    ensures
        split_on(x + l, sep) == split_on(x, sep).update(
            split_on(x, sep).len() - 1,
            split_on(x, sep).last() + l,
        ),
    decreases l.len(),
{
    crate::text::lemma_split_on_nonempty(x, sep);
    if l.len() == 0 {
        assert(x + l =~= x);
        assert(split_on(x, sep).last() + l =~= split_on(x, sep).last());
        assert(split_on(x, sep).update(split_on(x, sep).len() - 1, split_on(x, sep).last())
            =~= split_on(x, sep));
    } else {
        lemma_split_append(x, l.drop_last(), sep);
        assert((x + l).drop_last() =~= x + l.drop_last());
        assert(l[l.len() - 1] != sep);
        let p = split_on(x, sep);
        assert((p.last() + l.drop_last()).push(l.last()) =~= p.last() + l);
        assert(split_on(x + l, sep) =~= p.update(p.len() - 1, p.last() + l));
    }
}

pub proof fn lemma_split_sep(x: Seq<u8>, sep: u8)
    ensures
        split_on(x + seq![sep], sep) == split_on(x, sep).push(Seq::<u8>::empty()),
{
    assert((x + seq![sep]).drop_last() =~= x);
}

pub proof fn lemma_split_joined(ls: Seq<Seq<u8>>, sep: u8)
    requires
        forall|k: int| 0 <= k < ls.len() ==> free_of(#[trigger] ls[k], sep),
    ensures
        split_on(joined(ls, sep), sep) == ls.push(Seq::<u8>::empty()),
    decreases ls.len(),
{
    if ls.len() == 0 {
        assert(split_on(Seq::<u8>::empty(), sep) =~= seq![Seq::<u8>::empty()]);
        assert(ls.push(Seq::<u8>::empty()) =~= seq![Seq::<u8>::empty()]);
    } else {
        let init = ls.drop_last();
        assert forall|k: int| 0 <= k < init.len() implies free_of(#[trigger] init[k], sep) by {
            assert(init[k] == ls[k]);
        }
        lemma_split_joined(init, sep);
        let j = joined(init, sep);
        assert(free_of(ls[ls.len() - 1], sep));
        lemma_split_append(j, ls.last(), sep);
        lemma_split_sep(j + ls.last(), sep);
        let p = init.push(Seq::<u8>::empty());
        assert(Seq::<u8>::empty() + ls.last() =~= ls.last());
        assert(p.update(p.len() - 1, p.last() + ls.last()) =~= ls);
        assert(joined(ls, sep) =~= j + ls.last() + seq![sep]);
    }
}

pub proof fn lemma_words_single(b: Seq<u8>)
    requires
        word_ok(b),
    ensures
        words(b) == seq![b],
    decreases b.len(),
{
    if b.len() == 1 {
        assert(b.drop_last() =~= Seq::<u8>::empty());
        assert(words(Seq::<u8>::empty()) == Seq::<Seq<u8>>::empty());
        assert(words(b.drop_last()) == Seq::<Seq<u8>>::empty());
        assert(!is_ws(b[0]));
        assert(seq![b.last()] =~= b);
        assert(words(b) == Seq::<Seq<u8>>::empty().push(seq![b.last()]));
        assert(Seq::<Seq<u8>>::empty().push(seq![b.last()]) =~= seq![b]);
    } else {
        let d = b.drop_last();
        assert(word_ok(d)) by {
            assert forall|i: int| 0 <= i < d.len() implies !is_ws(#[trigger] d[i]) by {
                assert(d[i] == b[i]);
            }
        }
        lemma_words_single(d);
        assert(!is_ws(b[b.len() - 2]));
        assert(!is_ws(b[b.len() - 1]));
        assert(d.push(b.last()) =~= b);
        assert(seq![d].update(0, d.push(b.last())) =~= seq![b]);
    }
}

pub proof fn lemma_words_push(a: Seq<u8>, b: Seq<u8>)
    requires
        word_ok(b),
    ensures
        words(a + seq![32u8] + b) == words(a).push(b),
    decreases b.len(),
{
    let a1 = a + seq![32u8];
    assert(a1.drop_last() =~= a);
    assert(words(a1) == words(a));
    if b.len() == 1 {
        let x = a1 + b;
        assert(x.drop_last() =~= a1);
        assert(x[x.len() - 2] == 32u8);
        assert(!is_ws(b[0]));
        assert(seq![x.last()] =~= b);
    } else {
        let d = b.drop_last();
        assert(word_ok(d)) by {
            assert forall|i: int| 0 <= i < d.len() implies !is_ws(#[trigger] d[i]) by {
                assert(d[i] == b[i]);
            }
        }
        lemma_words_push(a, d);
        let x = a1 + b;
        assert(x.drop_last() =~= a1 + d);
        assert(x[x.len() - 2] == b[b.len() - 2]);
        assert(!is_ws(b[b.len() - 2]));
        assert(!is_ws(b[b.len() - 1]));
        assert(d.push(b.last()) =~= b);
        assert(words(a).push(d).update(words(a).len() as int, d.push(b.last())) =~= words(a).push(b));
    }
}

pub proof fn lemma_words_spaced(ws: Seq<Seq<u8>>)
    requires
        ws.len() >= 1,
        forall|k: int| 0 <= k < ws.len() ==> word_ok(#[trigger] ws[k]),
    ensures
        words(spaced(ws)) == ws,
    decreases ws.len(),
{
    if ws.len() == 1 {
        assert(word_ok(ws[0]));
        lemma_words_single(ws[0]);
        assert(seq![ws[0]] =~= ws);
    } else {
        let init = ws.drop_last();
        assert forall|k: int| 0 <= k < init.len() implies word_ok(#[trigger] init[k]) by {
            assert(init[k] == ws[k]);
        }
        lemma_words_spaced(init);
        assert(word_ok(ws[ws.len() - 1]));
        lemma_words_push(spaced(init), ws.last());
        assert(init.push(ws.last()) =~= ws);
    }
}

/// The first byte of a spaced line is the first byte of its first word, a
/// space follows that word when there is another, and the last byte is the
/// last of the last word.
pub proof fn lemma_spaced_shape(ws: Seq<Seq<u8>>)
    requires
        ws.len() >= 1,
        forall|k: int| 0 <= k < ws.len() ==> word_ok(#[trigger] ws[k]),
    ensures
        spaced(ws).len() >= ws[0].len(),
        spaced(ws).subrange(0, ws[0].len() as int) == ws[0],
        ws.len() >= 2 ==> spaced(ws).len() > ws[0].len() && spaced(ws)[ws[0].len() as int] == 32u8,
        spaced(ws).len() > 0,
        spaced(ws).last() == ws.last().last(),
        forall|i: int| 0 <= i < spaced(ws).len() ==> #[trigger] spaced(ws)[i] != 10u8,
    decreases ws.len(),
{
    assert(word_ok(ws[0]));
    assert(word_ok(ws[ws.len() - 1]));
    if ws.len() == 1 {
        assert(ws[0].subrange(0, ws[0].len() as int) =~= ws[0]);
        assert forall|i: int| 0 <= i < spaced(ws).len() implies #[trigger] spaced(ws)[i] != 10u8 by {
            assert(!is_ws(ws[0][i]));
        }
    } else {
        let init = ws.drop_last();
        assert forall|k: int| 0 <= k < init.len() implies word_ok(#[trigger] init[k]) by {
            assert(init[k] == ws[k]);
        }
        lemma_spaced_shape(init);
        let s = spaced(ws);
        let si = spaced(init);
        assert(s =~= si + seq![32u8] + ws.last());
        assert(s.subrange(0, ws[0].len() as int) =~= si.subrange(0, ws[0].len() as int));
        if init.len() == 1 {
            assert(si == ws[0]);
            assert(s[ws[0].len() as int] == 32u8);
        } else {
            assert(s[ws[0].len() as int] == si[ws[0].len() as int]);
        }
        assert forall|i: int| 0 <= i < s.len() implies #[trigger] s[i] != 10u8 by {
            if i < si.len() {
                assert(s[i] == si[i]);
            } else if i > si.len() {
                assert(s[i] == ws.last()[i - si.len() - 1]);
                assert(!is_ws(ws.last()[i - si.len() - 1]));
            }
        }
    }
}

pub proof fn lemma_trim_fixed(l: Seq<u8>)
    requires
        l.len() > 0,
        !is_ws(l[0]),
        !is_ws(l.last()),
    ensures
        trim(l) == l,
{
    assert(trim_start(l) == l);
    assert(trim_end(l) == l);
}

pub proof fn lemma_decimal_facts(n: nat)
    ensures
        decimal(n).len() >= 1,
        all_digits(decimal(n)),
        digits_value(decimal(n)) == n,
        n >= 10 ==> decimal(n)[0] != 48u8,
        n < 10 ==> decimal(n).len() == 1,
        n < 100 ==> decimal(n).len() <= 2,
        n < 1000 ==> decimal(n).len() <= 3,
        word_ok(decimal(n)),
        free_of(decimal(n), 46u8),
    decreases n,
{
    let d = decimal(n);
    if n < 10 {
        assert(d[0] == (48 + n) as u8);
        assert(d.drop_last() =~= Seq::<u8>::empty());
        assert(digits_value(Seq::<u8>::empty()) == 0);
    } else {
        lemma_decimal_facts(n / 10);
        let p = decimal(n / 10);
        assert(d =~= p + seq![(48 + n % 10) as u8]);
        assert(d.drop_last() =~= p);
        assert(forall|k: int| 0 <= k < p.len() ==> d[k] == p[k]);
        assert(all_digits(d)) by {
            assert forall|k: int| 0 <= k < d.len() implies is_digit(#[trigger] d[k]) by {
                if k < p.len() {
                    assert(d[k] == p[k]);
                    assert(is_digit(p[k]));
                }
            }
        }
        assert(n == (n / 10) * 10 + n % 10);
        assert(digits_value(d) == digits_value(p) * 10 + (d.last() - 48) as nat);
        if n / 10 < 10 {
            assert(p[0] == (48 + n / 10) as u8);
        }
        assert(word_ok(d)) by {
            assert forall|k: int| 0 <= k < d.len() implies !is_ws(#[trigger] d[k]) by {
                assert(is_digit(d[k]));
            }
        }
        assert(free_of(d, 46u8)) by {
            assert forall|k: int| 0 <= k < d.len() implies d[k] != 46u8 by {
                assert(is_digit(d[k]));
            }
        }
    }
}

pub proof fn lemma_parse_decimal(n: nat, max: nat)
    requires
        n <= max,
    ensures
        parse_unsigned(decimal(n), max) == Some(n),
{
    lemma_decimal_facts(n);
    assert(is_digit(decimal(n)[0]));
}

pub proof fn lemma_octet(x: u8)
    ensures
        crate::directory::octet_ok(decimal(x as nat)),
{
    lemma_decimal_facts(x as nat);
}

pub proof fn lemma_parse_dotted(ip: Seq<u8>)
    requires
        ip.len() == 4,
    ensures
        crate::directory::parse_ipv4(crate::proxy::socks5::dotted_quad(ip)) == Some(ip),
{
    let d0 = decimal(ip[0] as nat);
    let d1 = decimal(ip[1] as nat);
    let d2 = decimal(ip[2] as nat);
    let d3 = decimal(ip[3] as nat);
    lemma_decimal_facts(ip[0] as nat);
    lemma_decimal_facts(ip[1] as nat);
    lemma_decimal_facts(ip[2] as nat);
    lemma_decimal_facts(ip[3] as nat);
    lemma_octet(ip[0]);
    lemma_octet(ip[1]);
    lemma_octet(ip[2]);
    lemma_octet(ip[3]);
    let e = Seq::<u8>::empty();
    lemma_split_append(e, d0, 46u8);
    assert(e + d0 =~= d0);
    assert(split_on(e, 46u8) =~= seq![e]);
    assert(split_on(d0, 46u8) =~= seq![d0]);
    lemma_split_sep(d0, 46u8);
    let x1 = d0 + seq![46u8];
    lemma_split_append(x1, d1, 46u8);
    assert(split_on(x1 + d1, 46u8) =~= seq![d0, d1]);
    lemma_split_sep(x1 + d1, 46u8);
    let x2 = x1 + d1 + seq![46u8];
    lemma_split_append(x2, d2, 46u8);
    assert(split_on(x2 + d2, 46u8) =~= seq![d0, d1, d2]);
    lemma_split_sep(x2 + d2, 46u8);
    let x3 = x2 + d2 + seq![46u8];
    lemma_split_append(x3, d3, 46u8);
    assert(split_on(x3 + d3, 46u8) =~= seq![d0, d1, d2, d3]);
    assert(x3 + d3 =~= crate::proxy::socks5::dotted_quad(ip));
    assert(seq![
        digits_value(d0) as u8,
        digits_value(d1) as u8,
        digits_value(d2) as u8,
        digits_value(d3) as u8,
    ] =~= ip);
}

/// Every word of a line is non-empty and holds no whitespace.
pub proof fn lemma_words_ok(l: Seq<u8>)
    ensures
        forall|k: int| 0 <= k < words(l).len() ==> word_ok(#[trigger] words(l)[k]),
    decreases l.len(),
{
    if l.len() > 0 {
        let d = l.drop_last();
        lemma_words_ok(d);
        let p = words(d);
        let c = l.last();
        if !is_ws(c) {
            if l.len() >= 2 && !is_ws(l[l.len() - 2]) {
                crate::text::lemma_words_open(d);
                let w = p.last().push(c);
                assert(word_ok(p[p.len() - 1]));
                assert(word_ok(w)) by {
                    assert forall|i: int| 0 <= i < w.len() implies !is_ws(#[trigger] w[i]) by {
                        if i < p.last().len() {
                            assert(w[i] == p.last()[i]);
                        }
                    }
                }
                assert forall|k: int| 0 <= k < words(l).len() implies word_ok(#[trigger] words(l)[k]) by {
                    if k < p.len() - 1 {
                        assert(words(l)[k] == p[k]);
                    }
                }
            } else {
                assert(word_ok(seq![c]));
                assert forall|k: int| 0 <= k < words(l).len() implies word_ok(#[trigger] words(l)[k]) by {
                    if k < p.len() {
                        assert(words(l)[k] == p[k]);
                    }
                }
            }
        }
    }
}

pub proof fn lemma_words_drop_leading_ws(l: Seq<u8>)
    requires
        l.len() >= 1,
        is_ws(l[0]),
    ensures
        words(l) == words(l.drop_first()),
    decreases l.len(),
{
    if l.len() == 1 {
        assert(l.drop_last() =~= Seq::<u8>::empty());
        assert(l.drop_first() =~= Seq::<u8>::empty());
        assert(words(Seq::<u8>::empty()) == Seq::<Seq<u8>>::empty());
    } else {
        let d = l.drop_last();
        lemma_words_drop_leading_ws(d);
        assert(d.drop_first() =~= l.drop_first().drop_last());
        let f = l.drop_first();
        assert(f.last() == l.last());
        if l.len() == 2 {
            assert(f.drop_last() =~= Seq::<u8>::empty());
            assert(d.drop_first() =~= Seq::<u8>::empty());
            assert(words(Seq::<u8>::empty()) == Seq::<Seq<u8>>::empty());
            assert(d =~= seq![l[0]]);
            assert(d.drop_last() =~= Seq::<u8>::empty());
            assert(words(d) == Seq::<Seq<u8>>::empty());
        } else {
            assert(f[f.len() - 2] == l[l.len() - 2]);
        }
    }
}

pub proof fn lemma_words_trim_start(l: Seq<u8>)
    ensures
        words(trim_start(l)) == words(l),
    decreases l.len(),
{
    if l.len() > 0 && is_ws(l[0]) {
        lemma_words_drop_leading_ws(l);
        lemma_words_trim_start(l.drop_first());
    }
}

pub proof fn lemma_words_trim_end(l: Seq<u8>)
    ensures
        words(trim_end(l)) == words(l),
        trim_end(l).len() > 0 ==> !is_ws(trim_end(l).last()),
    decreases l.len(),
{
    if l.len() > 0 && is_ws(l.last()) {
        lemma_words_trim_end(l.drop_last());
    }
}

pub proof fn lemma_tagged_count(t: Seq<u8>, k: int)
    requires
        1 <= k <= t.len(),
        t.len() >= 2,
        !is_ws(t[0]),
        t[1] == 32u8,
    ensures
        words(t.subrange(0, k)).len() >= 1,
        k >= 2 ==> (words(t.subrange(0, k)).len() >= 2 || forall|i: int| 2 <= i < k ==> is_ws(#[trigger] t[i])),
    decreases k,
{
    let x = t.subrange(0, k);
    if k == 1 {
        assert(x.drop_last() =~= Seq::<u8>::empty());
        assert(words(Seq::<u8>::empty()) == Seq::<Seq<u8>>::empty());
    } else {
        lemma_tagged_count(t, k - 1);
        assert(x.drop_last() =~= t.subrange(0, k - 1));
        assert(x.last() == t[k - 1]);
        assert(x[x.len() - 2] == t[k - 2]);
    }
}

/// A line that, trimmed, starts with a tag and a space holds at least two
/// words: the tag and one more.
pub proof fn lemma_tagged_two_words(l: Seq<u8>, tag: u8)
    requires
        crate::directory::is_tagged(l, tag),
        !is_ws(tag),
    ensures
        words(l).len() >= 2,
{
    let t = trim(l);
    lemma_words_trim_start(l);
    lemma_words_trim_end(trim_start(l));
    assert(words(t) == words(l));
    assert(!is_ws(t.last()));
    assert(t.len() >= 3);
    lemma_tagged_count(t, t.len() as int);
    assert(t.subrange(0, t.len() as int) =~= t);
    assert(!is_ws(t[t.len() - 1]));
}


/// The word a flag is written as.
pub open spec fn flag_word(f: FlagView) -> Seq<u8> {
    match f {
        FlagView::Exit => seq![69u8, 120u8, 105u8, 116u8],
        FlagView::Guard => seq![71u8, 117u8, 97u8, 114u8, 100u8],
        FlagView::Middle => seq![77u8, 105u8, 100u8, 100u8, 108u8, 101u8],
        FlagView::Fast => seq![70u8, 97u8, 115u8, 116u8],
        FlagView::Stable => seq![83u8, 116u8, 97u8, 98u8, 108u8, 101u8],
        FlagView::Running => seq![82u8, 117u8, 110u8, 110u8, 105u8, 110u8, 103u8],
        FlagView::Valid => seq![86u8, 97u8, 108u8, 105u8, 100u8],
        FlagView::HSDir => seq![72u8, 83u8, 68u8, 105u8, 114u8],
        FlagView::V2Dir => seq![86u8, 50u8, 68u8, 105u8, 114u8],
        FlagView::Authority => seq![65u8, 117u8, 116u8, 104u8, 111u8, 114u8, 105u8, 116u8, 121u8],
        FlagView::BadExit => seq![66u8, 97u8, 100u8, 69u8, 120u8, 105u8, 116u8],
        FlagView::Unknown(s) => encode_utf8(s),
    }
}

/// A flag whose word is a word and reads back as the flag.
pub open spec fn flag_ok(f: FlagView) -> bool {
    word_ok(flag_word(f)) && flag_of_word(flag_word(f)) == Some(f)
}

/// The words of a relay's `r` line: nickname, identity, a placeholder
/// digest, date and time, address, OR port, and dir port 0.
pub open spec fn r_words(r: RelayView) -> Seq<Seq<u8>> {
    seq![
        seq![114u8],
        encode_utf8(r.nickname),
        encode_utf8(r.id),
        decimal(0),
        decimal(0),
        decimal(0),
        dotted_quad(r.address.0),
        decimal(r.address.1 as nat),
        decimal(0),
    ]
}

/// The words of a relay's `s` line.
pub open spec fn s_words(r: RelayView) -> Seq<Seq<u8>> {
    seq![seq![115u8]] + r.flags.map_values(|f: FlagView| flag_word(f))
}

/// The words of a relay's `w` line.
pub open spec fn w_words(r: RelayView) -> Seq<Seq<u8>> {
    seq![seq![119u8], bandwidth_key() + decimal(r.bandwidth as nat)]
}

pub open spec fn record_lines(r: RelayView) -> Seq<Seq<u8>> {
    seq![spaced(r_words(r)), spaced(s_words(r)), spaced(w_words(r))]
}

pub open spec fn all_lines(rs: Seq<RelayView>) -> Seq<Seq<u8>>
    decreases rs.len(),
{
    if rs.len() == 0 {
        Seq::<Seq<u8>>::empty()
    } else {
        all_lines(rs.drop_last()) + record_lines(rs.last())
    }
}

/// The canonical text of relays: three lines each, `r`, `s`, `w`.
pub open spec fn canonical_text(rs: Seq<RelayView>) -> Seq<u8> {
    joined(all_lines(rs), 10u8)
}

/// What the canonical text needs of a relay, and what parsing gives.
pub open spec fn canonical_ok(r: RelayView) -> bool {
    &&& word_ok(encode_utf8(r.nickname))
    &&& word_ok(encode_utf8(r.id))
    &&& base64_standard_decode(standard_base64(encode_utf8(r.id))) == Some(r.identity_key)
    &&& r.identity_key.len() == 20
    &&& r.onion_key == r.identity_key
    &&& r.flags.len() >= 1
    &&& forall|k: int| 0 <= k < r.flags.len() ==> flag_ok(#[trigger] r.flags[k])
    &&& r.address.0.len() == 4
}

/// The word of each known flag is a word, and reads back as that flag.
pub proof fn lemma_known_flag_ok(f: FlagView)
    requires
        !(f is Unknown),
    ensures
        flag_ok(f),
{
    match f {
        FlagView::Exit => {
    {
            let w = seq![69u8, 120u8, 105u8, 116u8];
            assert forall|i: int| 0 <= i < w.len() implies !is_ws(#[trigger] w[i]) by {
                if i == 0 {
                    assert(w[0] == 69u8);
                } else if i == 1 {
                    assert(w[1] == 120u8);
                } else if i == 2 {
                    assert(w[2] == 105u8);
                } else if i == 3 {
                    assert(w[3] == 116u8);
                }
            }
        }
            assert(word_ok(seq![69u8, 120u8, 105u8, 116u8]));
        },
        FlagView::Guard => {
    {
            let w = seq![71u8, 117u8, 97u8, 114u8, 100u8];
            assert forall|i: int| 0 <= i < w.len() implies !is_ws(#[trigger] w[i]) by {
                if i == 0 {
                    assert(w[0] == 71u8);
                } else if i == 1 {
                    assert(w[1] == 117u8);
                } else if i == 2 {
                    assert(w[2] == 97u8);
                } else if i == 3 {
                    assert(w[3] == 114u8);
                } else if i == 4 {
                    assert(w[4] == 100u8);
                }
            }
        }
            assert(word_ok(seq![71u8, 117u8, 97u8, 114u8, 100u8]));
            assert(seq![71u8, 117u8, 97u8, 114u8, 100u8].len() != seq![69u8, 120u8, 105u8, 116u8].len());
        },
        FlagView::Middle => {
    {
            let w = seq![77u8, 105u8, 100u8, 100u8, 108u8, 101u8];
            assert forall|i: int| 0 <= i < w.len() implies !is_ws(#[trigger] w[i]) by {
                if i == 0 {
                    assert(w[0] == 77u8);
                } else if i == 1 {
                    assert(w[1] == 105u8);
                } else if i == 2 {
                    assert(w[2] == 100u8);
                } else if i == 3 {
                    assert(w[3] == 100u8);
                } else if i == 4 {
                    assert(w[4] == 108u8);
                } else if i == 5 {
                    assert(w[5] == 101u8);
                }
            }
        }
            assert(word_ok(seq![77u8, 105u8, 100u8, 100u8, 108u8, 101u8]));
            assert(seq![77u8, 105u8, 100u8, 100u8, 108u8, 101u8].len() != seq![69u8, 120u8, 105u8, 116u8].len());
            assert(seq![77u8, 105u8, 100u8, 100u8, 108u8, 101u8].len() != seq![71u8, 117u8, 97u8, 114u8, 100u8].len());
        },
        FlagView::Fast => {
    {
            let w = seq![70u8, 97u8, 115u8, 116u8];
            assert forall|i: int| 0 <= i < w.len() implies !is_ws(#[trigger] w[i]) by {
                if i == 0 {
                    assert(w[0] == 70u8);
                } else if i == 1 {
                    assert(w[1] == 97u8);
                } else if i == 2 {
                    assert(w[2] == 115u8);
                } else if i == 3 {
                    assert(w[3] == 116u8);
                }
            }
        }
            assert(word_ok(seq![70u8, 97u8, 115u8, 116u8]));
            assert(seq![70u8, 97u8, 115u8, 116u8][0] != seq![69u8, 120u8, 105u8, 116u8][0]);
            assert(seq![70u8, 97u8, 115u8, 116u8].len() != seq![71u8, 117u8, 97u8, 114u8, 100u8].len());
            assert(seq![70u8, 97u8, 115u8, 116u8].len() != seq![77u8, 105u8, 100u8, 100u8, 108u8, 101u8].len());
        },
        FlagView::Stable => {
    {
            let w = seq![83u8, 116u8, 97u8, 98u8, 108u8, 101u8];
            assert forall|i: int| 0 <= i < w.len() implies !is_ws(#[trigger] w[i]) by {
                if i == 0 {
                    assert(w[0] == 83u8);
                } else if i == 1 {
                    assert(w[1] == 116u8);
                } else if i == 2 {
                    assert(w[2] == 97u8);
                } else if i == 3 {
                    assert(w[3] == 98u8);
                } else if i == 4 {
                    assert(w[4] == 108u8);
                } else if i == 5 {
                    assert(w[5] == 101u8);
                }
            }
        }
            assert(word_ok(seq![83u8, 116u8, 97u8, 98u8, 108u8, 101u8]));
            assert(seq![83u8, 116u8, 97u8, 98u8, 108u8, 101u8].len() != seq![69u8, 120u8, 105u8, 116u8].len());
            assert(seq![83u8, 116u8, 97u8, 98u8, 108u8, 101u8].len() != seq![71u8, 117u8, 97u8, 114u8, 100u8].len());
            assert(seq![83u8, 116u8, 97u8, 98u8, 108u8, 101u8][0] != seq![77u8, 105u8, 100u8, 100u8, 108u8, 101u8][0]);
            assert(seq![83u8, 116u8, 97u8, 98u8, 108u8, 101u8].len() != seq![70u8, 97u8, 115u8, 116u8].len());
        },
        FlagView::Running => {
    {
            let w = seq![82u8, 117u8, 110u8, 110u8, 105u8, 110u8, 103u8];
            assert forall|i: int| 0 <= i < w.len() implies !is_ws(#[trigger] w[i]) by {
                if i == 0 {
                    assert(w[0] == 82u8);
                } else if i == 1 {
                    assert(w[1] == 117u8);
                } else if i == 2 {
                    assert(w[2] == 110u8);
                } else if i == 3 {
                    assert(w[3] == 110u8);
                } else if i == 4 {
                    assert(w[4] == 105u8);
                } else if i == 5 {
                    assert(w[5] == 110u8);
                } else if i == 6 {
                    assert(w[6] == 103u8);
                }
            }
        }
            assert(word_ok(seq![82u8, 117u8, 110u8, 110u8, 105u8, 110u8, 103u8]));
            assert(seq![82u8, 117u8, 110u8, 110u8, 105u8, 110u8, 103u8].len() != seq![69u8, 120u8, 105u8, 116u8].len());
            assert(seq![82u8, 117u8, 110u8, 110u8, 105u8, 110u8, 103u8].len() != seq![71u8, 117u8, 97u8, 114u8, 100u8].len());
            assert(seq![82u8, 117u8, 110u8, 110u8, 105u8, 110u8, 103u8].len() != seq![77u8, 105u8, 100u8, 100u8, 108u8, 101u8].len());
            assert(seq![82u8, 117u8, 110u8, 110u8, 105u8, 110u8, 103u8].len() != seq![70u8, 97u8, 115u8, 116u8].len());
            assert(seq![82u8, 117u8, 110u8, 110u8, 105u8, 110u8, 103u8].len() != seq![83u8, 116u8, 97u8, 98u8, 108u8, 101u8].len());
        },
        FlagView::Valid => {
    {
            let w = seq![86u8, 97u8, 108u8, 105u8, 100u8];
            assert forall|i: int| 0 <= i < w.len() implies !is_ws(#[trigger] w[i]) by {
                if i == 0 {
                    assert(w[0] == 86u8);
                } else if i == 1 {
                    assert(w[1] == 97u8);
                } else if i == 2 {
                    assert(w[2] == 108u8);
                } else if i == 3 {
                    assert(w[3] == 105u8);
                } else if i == 4 {
                    assert(w[4] == 100u8);
                }
            }
        }
            assert(word_ok(seq![86u8, 97u8, 108u8, 105u8, 100u8]));
            assert(seq![86u8, 97u8, 108u8, 105u8, 100u8].len() != seq![69u8, 120u8, 105u8, 116u8].len());
            assert(seq![86u8, 97u8, 108u8, 105u8, 100u8][0] != seq![71u8, 117u8, 97u8, 114u8, 100u8][0]);
            assert(seq![86u8, 97u8, 108u8, 105u8, 100u8].len() != seq![77u8, 105u8, 100u8, 100u8, 108u8, 101u8].len());
            assert(seq![86u8, 97u8, 108u8, 105u8, 100u8].len() != seq![70u8, 97u8, 115u8, 116u8].len());
            assert(seq![86u8, 97u8, 108u8, 105u8, 100u8].len() != seq![83u8, 116u8, 97u8, 98u8, 108u8, 101u8].len());
            assert(seq![86u8, 97u8, 108u8, 105u8, 100u8].len() != seq![82u8, 117u8, 110u8, 110u8, 105u8, 110u8, 103u8].len());
        },
        FlagView::HSDir => {
    {
            let w = seq![72u8, 83u8, 68u8, 105u8, 114u8];
            assert forall|i: int| 0 <= i < w.len() implies !is_ws(#[trigger] w[i]) by {
                if i == 0 {
                    assert(w[0] == 72u8);
                } else if i == 1 {
                    assert(w[1] == 83u8);
                } else if i == 2 {
                    assert(w[2] == 68u8);
                } else if i == 3 {
                    assert(w[3] == 105u8);
                } else if i == 4 {
                    assert(w[4] == 114u8);
                }
            }
        }
            assert(word_ok(seq![72u8, 83u8, 68u8, 105u8, 114u8]));
            assert(seq![72u8, 83u8, 68u8, 105u8, 114u8].len() != seq![69u8, 120u8, 105u8, 116u8].len());
            assert(seq![72u8, 83u8, 68u8, 105u8, 114u8][0] != seq![71u8, 117u8, 97u8, 114u8, 100u8][0]);
            assert(seq![72u8, 83u8, 68u8, 105u8, 114u8].len() != seq![77u8, 105u8, 100u8, 100u8, 108u8, 101u8].len());
            assert(seq![72u8, 83u8, 68u8, 105u8, 114u8].len() != seq![70u8, 97u8, 115u8, 116u8].len());
            assert(seq![72u8, 83u8, 68u8, 105u8, 114u8].len() != seq![83u8, 116u8, 97u8, 98u8, 108u8, 101u8].len());
            assert(seq![72u8, 83u8, 68u8, 105u8, 114u8].len() != seq![82u8, 117u8, 110u8, 110u8, 105u8, 110u8, 103u8].len());
            assert(seq![72u8, 83u8, 68u8, 105u8, 114u8][0] != seq![86u8, 97u8, 108u8, 105u8, 100u8][0]);
        },
        FlagView::V2Dir => {
    {
            let w = seq![86u8, 50u8, 68u8, 105u8, 114u8];
            assert forall|i: int| 0 <= i < w.len() implies !is_ws(#[trigger] w[i]) by {
                if i == 0 {
                    assert(w[0] == 86u8);
                } else if i == 1 {
                    assert(w[1] == 50u8);
                } else if i == 2 {
                    assert(w[2] == 68u8);
                } else if i == 3 {
                    assert(w[3] == 105u8);
                } else if i == 4 {
                    assert(w[4] == 114u8);
                }
            }
        }
            assert(word_ok(seq![86u8, 50u8, 68u8, 105u8, 114u8]));
            assert(seq![86u8, 50u8, 68u8, 105u8, 114u8].len() != seq![69u8, 120u8, 105u8, 116u8].len());
            assert(seq![86u8, 50u8, 68u8, 105u8, 114u8][0] != seq![71u8, 117u8, 97u8, 114u8, 100u8][0]);
            assert(seq![86u8, 50u8, 68u8, 105u8, 114u8].len() != seq![77u8, 105u8, 100u8, 100u8, 108u8, 101u8].len());
            assert(seq![86u8, 50u8, 68u8, 105u8, 114u8].len() != seq![70u8, 97u8, 115u8, 116u8].len());
            assert(seq![86u8, 50u8, 68u8, 105u8, 114u8].len() != seq![83u8, 116u8, 97u8, 98u8, 108u8, 101u8].len());
            assert(seq![86u8, 50u8, 68u8, 105u8, 114u8].len() != seq![82u8, 117u8, 110u8, 110u8, 105u8, 110u8, 103u8].len());
            assert(seq![86u8, 50u8, 68u8, 105u8, 114u8][1] != seq![86u8, 97u8, 108u8, 105u8, 100u8][1]);
            assert(seq![86u8, 50u8, 68u8, 105u8, 114u8][0] != seq![72u8, 83u8, 68u8, 105u8, 114u8][0]);
        },
        FlagView::Authority => {
    {
            let w = seq![65u8, 117u8, 116u8, 104u8, 111u8, 114u8, 105u8, 116u8, 121u8];
            assert forall|i: int| 0 <= i < w.len() implies !is_ws(#[trigger] w[i]) by {
                if i == 0 {
                    assert(w[0] == 65u8);
                } else if i == 1 {
                    assert(w[1] == 117u8);
                } else if i == 2 {
                    assert(w[2] == 116u8);
                } else if i == 3 {
                    assert(w[3] == 104u8);
                } else if i == 4 {
                    assert(w[4] == 111u8);
                } else if i == 5 {
                    assert(w[5] == 114u8);
                } else if i == 6 {
                    assert(w[6] == 105u8);
                } else if i == 7 {
                    assert(w[7] == 116u8);
                } else if i == 8 {
                    assert(w[8] == 121u8);
                }
            }
        }
            assert(word_ok(seq![65u8, 117u8, 116u8, 104u8, 111u8, 114u8, 105u8, 116u8, 121u8]));
            assert(seq![65u8, 117u8, 116u8, 104u8, 111u8, 114u8, 105u8, 116u8, 121u8].len() != seq![69u8, 120u8, 105u8, 116u8].len());
            assert(seq![65u8, 117u8, 116u8, 104u8, 111u8, 114u8, 105u8, 116u8, 121u8].len() != seq![71u8, 117u8, 97u8, 114u8, 100u8].len());
            assert(seq![65u8, 117u8, 116u8, 104u8, 111u8, 114u8, 105u8, 116u8, 121u8].len() != seq![77u8, 105u8, 100u8, 100u8, 108u8, 101u8].len());
            assert(seq![65u8, 117u8, 116u8, 104u8, 111u8, 114u8, 105u8, 116u8, 121u8].len() != seq![70u8, 97u8, 115u8, 116u8].len());
            assert(seq![65u8, 117u8, 116u8, 104u8, 111u8, 114u8, 105u8, 116u8, 121u8].len() != seq![83u8, 116u8, 97u8, 98u8, 108u8, 101u8].len());
            assert(seq![65u8, 117u8, 116u8, 104u8, 111u8, 114u8, 105u8, 116u8, 121u8].len() != seq![82u8, 117u8, 110u8, 110u8, 105u8, 110u8, 103u8].len());
            assert(seq![65u8, 117u8, 116u8, 104u8, 111u8, 114u8, 105u8, 116u8, 121u8].len() != seq![86u8, 97u8, 108u8, 105u8, 100u8].len());
            assert(seq![65u8, 117u8, 116u8, 104u8, 111u8, 114u8, 105u8, 116u8, 121u8].len() != seq![72u8, 83u8, 68u8, 105u8, 114u8].len());
            assert(seq![65u8, 117u8, 116u8, 104u8, 111u8, 114u8, 105u8, 116u8, 121u8].len() != seq![86u8, 50u8, 68u8, 105u8, 114u8].len());
        },
        FlagView::BadExit => {
    {
            let w = seq![66u8, 97u8, 100u8, 69u8, 120u8, 105u8, 116u8];
            assert forall|i: int| 0 <= i < w.len() implies !is_ws(#[trigger] w[i]) by {
                if i == 0 {
                    assert(w[0] == 66u8);
                } else if i == 1 {
                    assert(w[1] == 97u8);
                } else if i == 2 {
                    assert(w[2] == 100u8);
                } else if i == 3 {
                    assert(w[3] == 69u8);
                } else if i == 4 {
                    assert(w[4] == 120u8);
                } else if i == 5 {
                    assert(w[5] == 105u8);
                } else if i == 6 {
                    assert(w[6] == 116u8);
                }
            }
        }
            assert(word_ok(seq![66u8, 97u8, 100u8, 69u8, 120u8, 105u8, 116u8]));
            assert(seq![66u8, 97u8, 100u8, 69u8, 120u8, 105u8, 116u8].len() != seq![69u8, 120u8, 105u8, 116u8].len());
            assert(seq![66u8, 97u8, 100u8, 69u8, 120u8, 105u8, 116u8].len() != seq![71u8, 117u8, 97u8, 114u8, 100u8].len());
            assert(seq![66u8, 97u8, 100u8, 69u8, 120u8, 105u8, 116u8].len() != seq![77u8, 105u8, 100u8, 100u8, 108u8, 101u8].len());
            assert(seq![66u8, 97u8, 100u8, 69u8, 120u8, 105u8, 116u8].len() != seq![70u8, 97u8, 115u8, 116u8].len());
            assert(seq![66u8, 97u8, 100u8, 69u8, 120u8, 105u8, 116u8].len() != seq![83u8, 116u8, 97u8, 98u8, 108u8, 101u8].len());
            assert(seq![66u8, 97u8, 100u8, 69u8, 120u8, 105u8, 116u8][0] != seq![82u8, 117u8, 110u8, 110u8, 105u8, 110u8, 103u8][0]);
            assert(seq![66u8, 97u8, 100u8, 69u8, 120u8, 105u8, 116u8].len() != seq![86u8, 97u8, 108u8, 105u8, 100u8].len());
            assert(seq![66u8, 97u8, 100u8, 69u8, 120u8, 105u8, 116u8].len() != seq![72u8, 83u8, 68u8, 105u8, 114u8].len());
            assert(seq![66u8, 97u8, 100u8, 69u8, 120u8, 105u8, 116u8].len() != seq![86u8, 50u8, 68u8, 105u8, 114u8].len());
            assert(seq![66u8, 97u8, 100u8, 69u8, 120u8, 105u8, 116u8].len() != seq![65u8, 117u8, 116u8, 104u8, 111u8, 114u8, 105u8, 116u8, 121u8].len());
        },
        FlagView::Unknown(_) => {},
    }
}


pub proof fn lemma_bandwidth_key_word()
    ensures
        forall|i: int| 0 <= i < bandwidth_key().len() ==> !is_ws(#[trigger] bandwidth_key()[i]),
        bandwidth_key().len() == 10,
{
    assert forall|i: int| 0 <= i < bandwidth_key().len() implies !is_ws(#[trigger] bandwidth_key()[i]) by {
        let w = bandwidth_key();
        if i == 0 {
            assert(w[0] == 66u8);
        } else if i == 1 {
            assert(w[1] == 97u8);
        } else if i == 2 {
            assert(w[2] == 110u8);
        } else if i == 3 {
            assert(w[3] == 100u8);
        } else if i == 4 {
            assert(w[4] == 119u8);
        } else if i == 5 {
            assert(w[5] == 105u8);
        } else if i == 6 {
            assert(w[6] == 100u8);
        } else if i == 7 {
            assert(w[7] == 116u8);
        } else if i == 8 {
            assert(w[8] == 104u8);
        } else if i == 9 {
            assert(w[9] == 61u8);
        }
    }
}


pub proof fn lemma_concat_word(a: Seq<u8>, b: Seq<u8>)
    requires
        word_ok(a),
        word_ok(b),
    ensures
        word_ok(a + b),
{
    assert forall|i: int| 0 <= i < (a + b).len() implies !is_ws(#[trigger] (a + b)[i]) by {
        if i < a.len() {
            assert((a + b)[i] == a[i]);
        } else {
            assert((a + b)[i] == b[i - a.len()]);
        }
    }
}

pub proof fn lemma_dotted_word(ip: Seq<u8>)
    requires
        ip.len() == 4,
    ensures
        word_ok(dotted_quad(ip)),
{
    let dot = seq![46u8];
    assert(word_ok(dot)) by {
        assert forall|i: int| 0 <= i < dot.len() implies !is_ws(#[trigger] dot[i]) by {
            assert(i == 0);
        }
    }
    lemma_decimal_facts(ip[0] as nat);
    lemma_decimal_facts(ip[1] as nat);
    lemma_decimal_facts(ip[2] as nat);
    lemma_decimal_facts(ip[3] as nat);
    let d0 = decimal(ip[0] as nat);
    let d1 = decimal(ip[1] as nat);
    let d2 = decimal(ip[2] as nat);
    let d3 = decimal(ip[3] as nat);
    lemma_concat_word(d0, dot);
    lemma_concat_word(d0 + dot, d1);
    lemma_concat_word(d0 + dot + d1, dot);
    lemma_concat_word(d0 + dot + d1 + dot, d2);
    lemma_concat_word(d0 + dot + d1 + dot + d2, dot);
    lemma_concat_word(d0 + dot + d1 + dot + d2 + dot, d3);
}

pub proof fn lemma_flags_round_trip(fs: Seq<FlagView>)
    requires
        forall|k: int| 0 <= k < fs.len() ==> flag_ok(#[trigger] fs[k]),
    ensures
        flags_of_words(fs.map_values(|f: FlagView| flag_word(f))) == Some(fs),
    decreases fs.len(),
{
    let ws = fs.map_values(|f: FlagView| flag_word(f));
    if fs.len() == 0 {
        assert(ws.len() == 0);
    } else {
        let init = fs.drop_last();
        assert forall|k: int| 0 <= k < init.len() implies flag_ok(#[trigger] init[k]) by {
            assert(init[k] == fs[k]);
        }
        lemma_flags_round_trip(init);
        assert(ws.drop_last() =~= init.map_values(|f: FlagView| flag_word(f)));
        assert(flag_ok(fs[fs.len() - 1]));
        assert(ws.last() == flag_word(fs.last()));
        assert(init.push(fs.last()) =~= fs);
    }
}

pub proof fn lemma_single_byte_word(b: u8)
    requires
        !is_ws(b),
    ensures
        word_ok(seq![b]),
{
    assert forall|i: int| 0 <= i < seq![b].len() implies !is_ws(#[trigger] seq![b][i]) by {
        assert(i == 0);
    }
}

/// The three lines of a relay's canonical record, found at line `i`, read
/// back as that relay; only the first of them opens a record.
pub proof fn lemma_record_parses(lines: Seq<Seq<u8>>, i: int, r: RelayView)
    requires
        canonical_ok(r),
        0 <= i,
        i + 2 < lines.len(),
        lines[i] == spaced(r_words(r)),
        lines[i + 1] == spaced(s_words(r)),
        lines[i + 2] == spaced(w_words(r)),
    ensures
        is_tagged(lines[i], 114u8),
        !is_tagged(lines[i + 1], 114u8),
        !is_tagged(lines[i + 2], 114u8),
        parse_record(lines, i) == Some(r),
{
    lemma_decimal_facts(0);
    lemma_decimal_facts(r.address.1 as nat);
    lemma_decimal_facts(r.bandwidth as nat);
    lemma_dotted_word(r.address.0);
    lemma_single_byte_word(114u8);
    lemma_single_byte_word(115u8);
    lemma_single_byte_word(119u8);
    // the r line
    let rw = r_words(r);
    assert forall|k: int| 0 <= k < rw.len() implies word_ok(#[trigger] rw[k]) by {
        if k == 0 {
        } else if k == 1 {
        } else if k == 2 {
        } else if k == 6 {
        } else if k == 7 {
        } else {
            assert(rw[k] == decimal(0));
        }
    }
    lemma_words_spaced(rw);
    lemma_spaced_shape(rw);
    assert(rw.last().last() == rw[8].last());
    assert(rw[0] == seq![114u8]);
    assert(spaced(rw).subrange(0, 1)[0] == spaced(rw)[0]);
    assert(lines[i][0] == 114u8);
    assert(lines[i][1] == 32u8);
    lemma_trim_fixed(lines[i]);
    // the s line
    let sw = s_words(r);
    let fw = r.flags.map_values(|f: FlagView| flag_word(f));
    assert(sw.len() == 1 + r.flags.len());
    assert forall|k: int| 0 <= k < sw.len() implies word_ok(#[trigger] sw[k]) by {
        if k > 0 {
            assert(sw[k] == fw[k - 1]);
            assert(flag_ok(r.flags[k - 1]));
        }
    }
    lemma_words_spaced(sw);
    lemma_spaced_shape(sw);
    assert(word_ok(sw[sw.len() - 1]));
    assert(sw[0] == seq![115u8]);
    assert(spaced(sw).subrange(0, 1)[0] == spaced(sw)[0]);
    assert(lines[i + 1][0] == 115u8);
    assert(lines[i + 1][1] == 32u8);
    lemma_trim_fixed(lines[i + 1]);
    assert(sw.drop_first() =~= fw);
    lemma_flags_round_trip(r.flags);
    // the w line
    let ww = w_words(r);
    lemma_bandwidth_key_word();
    let key = bandwidth_key();
    assert(word_ok(key));
    lemma_concat_word(key, decimal(r.bandwidth as nat));
    assert forall|k: int| 0 <= k < ww.len() implies word_ok(#[trigger] ww[k]) by {
        if k == 1 {
        }
    }
    lemma_words_spaced(ww);
    lemma_spaced_shape(ww);
    assert(word_ok(ww[1]));
    assert(ww[0] == seq![119u8]);
    assert(spaced(ww).subrange(0, 1)[0] == spaced(ww)[0]);
    assert(lines[i + 2][0] == 119u8);
    lemma_trim_fixed(lines[i + 2]);
    let bw = key + decimal(r.bandwidth as nat);
    assert(bw.subrange(0, 10) =~= key);
    assert(bw.subrange(10, bw.len() as int) =~= decimal(r.bandwidth as nat));
    lemma_parse_decimal(r.bandwidth as nat, u32::MAX as nat);
    assert(bandwidth_from(ww, 1) == Some(r.bandwidth));
    assert(line_bandwidth(lines[i + 2]) == Some(r.bandwidth));
    assert(record_bandwidth(lines, i + 2, 0) == r.bandwidth);
    // the fields
    lemma_parse_decimal(r.address.1 as nat, 65535);
    lemma_parse_decimal(0, 65535);
    lemma_parse_dotted(r.address.0);
    encode_utf8_valid_utf8(r.nickname);
    encode_utf8_valid_utf8(r.id);
    encode_utf8_decode_utf8(r.nickname);
    encode_utf8_decode_utf8(r.id);
    assert(words(lines[i]) == rw);
    assert(record_flags(lines, i) == (Some(r.flags), i + 2));
}


/// The words of a canonical record are all words, and its lines hold no
/// line feed.
pub proof fn lemma_record_lines_free(r: RelayView)
    requires
        canonical_ok(r),
    ensures
        forall|j: int| 0 <= j < 3 ==> free_of(#[trigger] record_lines(r)[j], 10u8),
{
    lemma_decimal_facts(0);
    lemma_decimal_facts(r.address.1 as nat);
    lemma_decimal_facts(r.bandwidth as nat);
    lemma_dotted_word(r.address.0);
    lemma_single_byte_word(114u8);
    lemma_single_byte_word(115u8);
    lemma_single_byte_word(119u8);
    let rw = r_words(r);
    assert forall|k: int| 0 <= k < rw.len() implies word_ok(#[trigger] rw[k]) by {
        if k == 0 {
        } else if k == 1 {
        } else if k == 2 {
        } else if k == 6 {
        } else if k == 7 {
        } else {
            assert(rw[k] == decimal(0));
        }
    }
    lemma_spaced_shape(rw);
    let sw = s_words(r);
    let fw = r.flags.map_values(|f: FlagView| flag_word(f));
    assert forall|k: int| 0 <= k < sw.len() implies word_ok(#[trigger] sw[k]) by {
        if k > 0 {
            assert(sw[k] == fw[k - 1]);
            assert(flag_ok(r.flags[k - 1]));
        }
    }
    lemma_spaced_shape(sw);
    let ww = w_words(r);
    lemma_bandwidth_key_word();
    assert(word_ok(bandwidth_key()));
    lemma_concat_word(bandwidth_key(), decimal(r.bandwidth as nat));
    assert forall|k: int| 0 <= k < ww.len() implies word_ok(#[trigger] ww[k]) by {
        if k == 1 {
        }
    }
    lemma_spaced_shape(ww);
}

pub proof fn lemma_all_lines_index(rs: Seq<RelayView>)
    ensures
        all_lines(rs).len() == 3 * rs.len(),
        forall|k: int, j: int|
            0 <= k < rs.len() && 0 <= j < 3 ==> #[trigger] all_lines(rs)[3 * k + j] == record_lines(
                rs[k],
            )[j],
    decreases rs.len(),
{
    if rs.len() > 0 {
        let init = rs.drop_last();
        lemma_all_lines_index(init);
        let a = all_lines(rs);
        let ai = all_lines(init);
        assert(a == ai + record_lines(rs.last()));
        assert forall|k: int, j: int| 0 <= k < rs.len() && 0 <= j < 3 implies #[trigger] a[3 * k + j]
            == record_lines(rs[k])[j] by {
            if k < init.len() {
                assert(a[3 * k + j] == ai[3 * k + j]);
                assert(init[k] == rs[k]);
            } else {
                assert(a[3 * k + j] == record_lines(rs.last())[j]);
            }
        }
    }
}

pub proof fn lemma_canonical_prefix(rs: Seq<RelayView>, lines: Seq<Seq<u8>>, m: int)
    requires
        ids_unique(rs),
        forall|k: int| 0 <= k < rs.len() ==> canonical_ok(#[trigger] rs[k]),
        lines == all_lines(rs).push(Seq::<u8>::empty()),
        0 <= m <= rs.len(),
    ensures
        relays_of_lines(lines, 3 * m) == rs.subrange(0, m),
    decreases m,
{
    lemma_all_lines_index(rs);
    if m == 0 {
        assert(rs.subrange(0, 0) =~= Seq::<RelayView>::empty());
    } else {
        let k = m - 1;
        lemma_canonical_prefix(rs, lines, k);
        assert(lines[3 * k] == all_lines(rs)[3 * k + 0]);
        assert(lines[3 * k + 1] == all_lines(rs)[3 * k + 1]);
        assert(lines[3 * k + 2] == all_lines(rs)[3 * k + 2]);
        lemma_record_parses(lines, 3 * k, rs[k]);
        let p = rs.subrange(0, k);
        assert(!exists|j: int| 0 <= j < p.len() && p[j].id == rs[k].id) by {
            if exists|j: int| 0 <= j < p.len() && p[j].id == rs[k].id {
                let j = choose|j: int| 0 <= j < p.len() && p[j].id == rs[k].id;
                assert(rs[j].id == rs[k].id);
            }
        }
        assert(relays_of_lines(lines, 3 * k + 1) == insert_relay(p, rs[k]));
        assert(p.push(rs[k]) =~= rs.subrange(0, m));
        assert(relays_of_lines(lines, 3 * k + 2) == relays_of_lines(lines, 3 * k + 1));
        assert(relays_of_lines(lines, 3 * k + 3) == relays_of_lines(lines, 3 * k + 2));
        assert(3 * m == 3 * k + 3);
    }
}

/// Relays that meet the canonical conditions and have distinct ids are read
/// back from their canonical text exactly.
pub proof fn lemma_canonical_round_trip(rs: Seq<RelayView>)
    requires
        ids_unique(rs),
        forall|k: int| 0 <= k < rs.len() ==> canonical_ok(#[trigger] rs[k]),
    ensures
        consensus_relays(canonical_text(rs)) == rs,
{
    let ls = all_lines(rs);
    lemma_all_lines_index(rs);
    assert forall|q: int| 0 <= q < ls.len() implies free_of(#[trigger] ls[q], 10u8) by {
        let k = q / 3;
        let j = q % 3;
        assert(q == 3 * k + j);
        lemma_record_lines_free(rs[k]);
        assert(ls[3 * k + j] == record_lines(rs[k])[j]);
    }
    lemma_split_joined(ls, 10u8);
    let lines = ls.push(Seq::<u8>::empty());
    lemma_canonical_prefix(rs, lines, rs.len() as int);
    assert(rs.subrange(0, rs.len() as int) =~= rs);
    let n = rs.len() as int;
    assert(lines[3 * n] == Seq::<u8>::empty());
    assert(trim(Seq::<u8>::empty()) == Seq::<u8>::empty());
    assert(!is_tagged(lines[3 * n], 114u8));
    assert(relays_of_lines(lines, 3 * n + 1) == relays_of_lines(lines, 3 * n));
}

pub proof fn lemma_flags_of_words_facts(ws: Seq<Seq<u8>>)
    requires
        flags_of_words(ws) is Some,
    ensures
        flags_of_words(ws)->0.len() == ws.len(),
        forall|k: int|
            0 <= k < ws.len() ==> flag_of_word(#[trigger] ws[k]) == Some(flags_of_words(ws)->0[k]),
    decreases ws.len(),
{
    if ws.len() > 0 {
        let init = ws.drop_last();
        lemma_flags_of_words_facts(init);
        let fs = flags_of_words(ws)->0;
        assert forall|k: int| 0 <= k < ws.len() implies flag_of_word(#[trigger] ws[k]) == Some(fs[k]) by {
            if k < init.len() {
                assert(ws[k] == init[k]);
            }
        }
    }
}

pub proof fn lemma_word_flag_ok(w: Seq<u8>, f: FlagView)
    requires
        word_ok(w),
        flag_of_word(w) == Some(f),
    ensures
        flag_ok(f),
{
    if f is Unknown {
        decode_utf8_encode_utf8(w);
        assert(flag_word(f) == w);
    } else {
        lemma_known_flag_ok(f);
    }
}

/// Every relay that parsing yields meets the canonical conditions.
pub proof fn lemma_record_canonical(lines: Seq<Seq<u8>>, i: int)
    requires
        0 <= i < lines.len(),
        parse_record(lines, i) is Some,
    ensures
        canonical_ok(parse_record(lines, i)->0),
{
    let parts = words(lines[i]);
    lemma_words_ok(lines[i]);
    assert(word_ok(parts[1]));
    assert(word_ok(parts[2]));
    decode_utf8_encode_utf8(parts[1]);
    decode_utf8_encode_utf8(parts[2]);
    let r = parse_record(lines, i)->0;
    let fl = record_flags(lines, i);
    if i + 1 < lines.len() && is_tagged(lines[i + 1], 115u8) {
        let l = lines[i + 1];
        lemma_tagged_two_words(l, 115u8);
        lemma_words_ok(l);
        let rest = after_first(words(l));
        lemma_flags_of_words_facts(rest);
        assert forall|k: int| 0 <= k < r.flags.len() implies flag_ok(#[trigger] r.flags[k]) by {
            assert(rest[k] == words(l)[k + 1]);
            assert(word_ok(words(l)[k + 1]));
            lemma_word_flag_ok(rest[k], r.flags[k]);
        }
    } else {
        lemma_known_flag_ok(FlagView::Running);
        lemma_known_flag_ok(FlagView::Valid);
        assert forall|k: int| 0 <= k < r.flags.len() implies flag_ok(#[trigger] r.flags[k]) by {
            if k == 0 {
            } else {
            }
        }
    }
}

pub proof fn lemma_relays_canonical(lines: Seq<Seq<u8>>, n: int)
    ensures
        forall|k: int|
            0 <= k < relays_of_lines(lines, n).len() ==> canonical_ok(
                #[trigger] relays_of_lines(lines, n)[k],
            ),
    decreases n,
{
    if n > 0 {
        lemma_relays_canonical(lines, n - 1);
        let p = relays_of_lines(lines, n - 1);
        if n - 1 < lines.len() && is_tagged(lines[n - 1], 114u8) && parse_record(lines, n - 1) is Some {
            let r = parse_record(lines, n - 1)->0;
            lemma_record_canonical(lines, n - 1);
            crate::directory::lemma_insert_members(p, r);
            let q = insert_relay(p, r);
            assert forall|k: int| 0 <= k < q.len() implies canonical_ok(#[trigger] q[k]) by {
                if p.contains(q[k]) {
                    let j = choose|j: int| 0 <= j < p.len() && p[j] == q[k];
                    assert(canonical_ok(p[j]));
                }
            }
        }
    }
}

/// Reading a consensus document, writing its relays out in canonical form
/// and reading that again gives the same relays.
pub proof fn lemma_consensus_reparse(text: Seq<u8>)
    ensures
        consensus_relays(canonical_text(consensus_relays(text))) == consensus_relays(text),
{
    let lines = split_on(text, 10u8);
    crate::directory::lemma_relays_of_lines_wf(lines, lines.len() as int);
    lemma_relays_canonical(lines, lines.len() as int);
    lemma_canonical_round_trip(consensus_relays(text));
}


pub proof fn lemma_spaced_push(ws: Seq<Seq<u8>>, w: Seq<u8>)
    requires
        ws.len() >= 1,
    ensures
        spaced(ws.push(w)) == spaced(ws) + seq![32u8] + w,
{
    assert(ws.push(w).drop_last() =~= ws);
}

/// Appends words separated by single spaces.
fn push_spaced(out: &mut Vec<u8>, ws: &Vec<Vec<u8>>)
    ensures
        final(out)@ == old(out)@ + spaced(views(ws@)),
{
    let ghost start = out@;
    if ws.len() == 0 {
        assert(start + spaced(views(ws@)) =~= start);
        return ;
    }
    push_all(out, ws[0].as_slice());
    assert(views(ws@).subrange(0, 1) =~= seq![ws@[0]@]);
    let mut i: usize = 1;
    while i < ws.len()
        invariant
            1 <= i <= ws@.len(),
            out@ == start + spaced(views(ws@).subrange(0, i as int)),
        decreases ws@.len() - i,
    {
        out.push(32u8);
        push_all(out, ws[i].as_slice());
        proof {
            lemma_spaced_push(views(ws@).subrange(0, i as int), ws@[i as int]@);
            assert(views(ws@).subrange(0, i as int).push(ws@[i as int]@) =~= views(ws@).subrange(0, i + 1));
        }
        i += 1;
    }
    assert(views(ws@).subrange(0, ws@.len() as int) =~= views(ws@));
}

fn push_flag_word(out: &mut Vec<u8>, f: &RelayFlag)
    ensures
        final(out)@ == old(out)@ + flag_word(f@),
{
    match f {
        RelayFlag::Exit => {
            push_all(out, &[69u8, 120u8, 105u8, 116u8]);
            assert([69u8, 120u8, 105u8, 116u8]@ =~= flag_word(f@));
        },
        RelayFlag::Guard => {
            push_all(out, &[71u8, 117u8, 97u8, 114u8, 100u8]);
            assert([71u8, 117u8, 97u8, 114u8, 100u8]@ =~= flag_word(f@));
        },
        RelayFlag::Middle => {
            push_all(out, &[77u8, 105u8, 100u8, 100u8, 108u8, 101u8]);
            assert([77u8, 105u8, 100u8, 100u8, 108u8, 101u8]@ =~= flag_word(f@));
        },
        RelayFlag::Fast => {
            push_all(out, &[70u8, 97u8, 115u8, 116u8]);
            assert([70u8, 97u8, 115u8, 116u8]@ =~= flag_word(f@));
        },
        RelayFlag::Stable => {
            push_all(out, &[83u8, 116u8, 97u8, 98u8, 108u8, 101u8]);
            assert([83u8, 116u8, 97u8, 98u8, 108u8, 101u8]@ =~= flag_word(f@));
        },
        RelayFlag::Running => {
            push_all(out, &[82u8, 117u8, 110u8, 110u8, 105u8, 110u8, 103u8]);
            assert([82u8, 117u8, 110u8, 110u8, 105u8, 110u8, 103u8]@ =~= flag_word(f@));
        },
        RelayFlag::Valid => {
            push_all(out, &[86u8, 97u8, 108u8, 105u8, 100u8]);
            assert([86u8, 97u8, 108u8, 105u8, 100u8]@ =~= flag_word(f@));
        },
        RelayFlag::HSDir => {
            push_all(out, &[72u8, 83u8, 68u8, 105u8, 114u8]);
            assert([72u8, 83u8, 68u8, 105u8, 114u8]@ =~= flag_word(f@));
        },
        RelayFlag::V2Dir => {
            push_all(out, &[86u8, 50u8, 68u8, 105u8, 114u8]);
            assert([86u8, 50u8, 68u8, 105u8, 114u8]@ =~= flag_word(f@));
        },
        RelayFlag::Authority => {
            push_all(out, &[65u8, 117u8, 116u8, 104u8, 111u8, 114u8, 105u8, 116u8, 121u8]);
            assert([65u8, 117u8, 116u8, 104u8, 111u8, 114u8, 105u8, 116u8, 121u8]@ =~= flag_word(f@));
        },
        RelayFlag::BadExit => {
            push_all(out, &[66u8, 97u8, 100u8, 69u8, 120u8, 105u8, 116u8]);
            assert([66u8, 97u8, 100u8, 69u8, 120u8, 105u8, 116u8]@ =~= flag_word(f@));
        },
        RelayFlag::Unknown(s) => {
            push_all(out, s.as_str().as_bytes());
        },
    }
}

fn decimal_word(n: u64) -> (r: Vec<u8>)
    ensures
        r@ == decimal(n as nat),
{
    let mut v: Vec<u8> = Vec::new();
    push_decimal(&mut v, n);
    v
}

fn byte_word(b: u8) -> (r: Vec<u8>)
    ensures
        r@ == seq![b],
{
    let mut v: Vec<u8> = Vec::new();
    v.push(b);
    v
}

fn record_words(r: &RelayDescriptor) -> (res: (Vec<Vec<u8>>, Vec<Vec<u8>>, Vec<Vec<u8>>))
    ensures
        views(res.0@) == r_words(r@),
        views(res.1@) == s_words(r@),
        views(res.2@) == w_words(r@),
{
    let mut rw: Vec<Vec<u8>> = Vec::new();
    rw.push(byte_word(114u8));
    let mut nick: Vec<u8> = Vec::new();
    push_all(&mut nick, r.nickname.as_str().as_bytes());
    rw.push(nick);
    let mut id: Vec<u8> = Vec::new();
    push_all(&mut id, r.id.as_str().as_bytes());
    rw.push(id);
    rw.push(decimal_word(0));
    rw.push(decimal_word(0));
    rw.push(decimal_word(0));
    let mut quad: Vec<u8> = Vec::new();
    push_decimal(&mut quad, r.address.ip[0] as u64);
    quad.push(46u8);
    push_decimal(&mut quad, r.address.ip[1] as u64);
    quad.push(46u8);
    push_decimal(&mut quad, r.address.ip[2] as u64);
    quad.push(46u8);
    push_decimal(&mut quad, r.address.ip[3] as u64);
    assert(quad@ =~= dotted_quad(r.address.ip@));
    rw.push(quad);
    rw.push(decimal_word(r.address.port as u64));
    rw.push(decimal_word(0));
    assert(views(rw@) =~= r_words(r@));
    let mut sw: Vec<Vec<u8>> = Vec::new();
    sw.push(byte_word(115u8));
    let mut k: usize = 0;
    while k < r.flags.len()
        invariant
            k <= r.flags@.len(),
            sw@.len() == k + 1,
            views(sw@) == s_words(r@).subrange(0, k + 1),
        decreases r.flags@.len() - k,
    {
        let mut w: Vec<u8> = Vec::new();
        push_flag_word(&mut w, &r.flags[k]);
        assert(w@ =~= flag_word(r.flags@[k as int]@));
        sw.push(w);
        assert(s_words(r@)[k + 1] == flag_word(r.flags@[k as int]@));
        assert(views(sw@) =~= s_words(r@).subrange(0, k + 2));
        k += 1;
    }
    assert(s_words(r@).subrange(0, r.flags@.len() + 1 as int) =~= s_words(r@));
    let mut ww: Vec<Vec<u8>> = Vec::new();
    ww.push(byte_word(119u8));
    let mut bw: Vec<u8> = Vec::new();
    push_all(&mut bw, &[66u8, 97u8, 110u8, 100u8, 119u8, 105u8, 100u8, 116u8, 104u8, 61u8]);
    assert([66u8, 97u8, 110u8, 100u8, 119u8, 105u8, 100u8, 116u8, 104u8, 61u8]@ =~= bandwidth_key());
    push_decimal(&mut bw, r.bandwidth as u64);
    ww.push(bw);
    assert(views(ww@) =~= w_words(r@));
    (rw, sw, ww)
}

pub proof fn lemma_joined_three(ls: Seq<Seq<u8>>, a: Seq<u8>, b: Seq<u8>, c: Seq<u8>, sep: u8)
    ensures
        joined(ls + seq![a, b, c], sep) == joined(ls, sep) + a + seq![sep] + b + seq![sep] + c
            + seq![sep],
{
    let l3 = ls + seq![a, b, c];
    let l2 = ls + seq![a, b];
    let l1 = ls + seq![a];
    assert(l3.drop_last() =~= l2);
    assert(l2.drop_last() =~= l1);
    assert(l1.drop_last() =~= ls);
    assert(l3.last() == c && l2.last() == b && l1.last() == a);
    assert(joined(l3, sep) == joined(l2, sep) + c + seq![sep]);
    assert(joined(l2, sep) == joined(l1, sep) + b + seq![sep]);
    assert(joined(l1, sep) == joined(ls, sep) + a + seq![sep]);
    assert(joined(l3, sep) =~= joined(ls, sep) + a + seq![sep] + b + seq![sep] + c + seq![sep]);
}

impl NetworkConsensus {
    /// The relays in canonical text: for each, an `r` line (nickname,
    /// identity, placeholder digest, date and time, address, OR port, dir
    /// port), an `s` line with its flags and a `w` line with its bandwidth.
    pub fn canonical_text(&self) -> (r: Vec<u8>)
        ensures
            r@ == canonical_text(relay_views(self.relays@)),
    {
        let ghost rs = relay_views(self.relays@);
        let mut out: Vec<u8> = Vec::new();
        let mut k: usize = 0;
        assert(all_lines(rs.subrange(0, 0)) =~= Seq::<Seq<u8>>::empty());
        while k < self.relays.len()
            invariant
                k <= self.relays@.len(),
                rs == relay_views(self.relays@),
                out@ == joined(all_lines(rs.subrange(0, k as int)), 10u8),
            decreases self.relays@.len() - k,
        {
            let (rw, sw, ww) = record_words(&self.relays[k]);
            let ghost before = out@;
            push_spaced(&mut out, &rw);
            out.push(10u8);
            push_spaced(&mut out, &sw);
            out.push(10u8);
            push_spaced(&mut out, &ww);
            out.push(10u8);
            proof {
                let r = rs[k as int];
                assert(self.relays@[k as int]@ == r);
                let prev = all_lines(rs.subrange(0, k as int));
                assert(rs.subrange(0, k + 1).drop_last() =~= rs.subrange(0, k as int));
                assert(all_lines(rs.subrange(0, k + 1)) == prev + record_lines(r));
                assert(record_lines(r) =~= seq![spaced(r_words(r)), spaced(s_words(r)), spaced(w_words(r))]);
                lemma_joined_three(prev, spaced(r_words(r)), spaced(s_words(r)), spaced(w_words(r)), 10u8);
                assert(out@ =~= joined(all_lines(rs.subrange(0, k + 1)), 10u8));
            }
            k += 1;
        }
        assert(rs.subrange(0, rs.len() as int) =~= rs);
        out
    }
}

} // verus!
