//! Reading back the share links this library writes: the text facts the
//! parsers need about a link built from known parts.

use vstd::prelude::*;
use vstd::string::*;
use vstd::utf8::{encode_utf8, is_ascii_chars};

use crate::error::ErrorView;
use crate::models::{Hysteria2View, KindView, NodeView};
use crate::parser::hysteria2::{
    hy2_initial, hy2_obfs, hy2_pairs, hy2_params, hy2_spec, hy2_step, is_port_stop,
    multi_port_in_port_field, stop_at, Hy2Params,
};
use crate::parser::v2ray_json::{
    canonical_hysteria2, fragment_suffix, host_form, hy2_pieces, obfs_pieces, opt_piece, query_suffix,
};
use crate::text::{
    decimal, digit_char, find, is_blank, is_ws, join, last_index_of, lemma_find_bounds,
    lemma_split_char_len, lower, lower_seq, occurs_at, split_char, split_once, starts_with, trim,
    trimmed_nonempty,
};
use crate::url_text::{
    form_field, form_pair, form_pieces, is_ip_address, lemma_decode_undoes_encode, pct_byte,
    pct_bytes, pct_encode, percent_decoded_bytes, percent_decoded_strict, plus_to_space, url_parse,
    UrlView,
};

verus! {

/// Every character of `s` satisfies `f`.
pub open spec fn all_in(s: Seq<char>, f: spec_fn(char) -> bool) -> bool {
    forall|i: int| 0 <= i < s.len() ==> f(#[trigger] s[i])
}

pub proof fn lemma_all_in_concat(a: Seq<char>, b: Seq<char>, f: spec_fn(char) -> bool)
    ensures
        all_in(a + b, f) == (all_in(a, f) && all_in(b, f)),
{
    if all_in(a + b, f) {
        assert forall|i: int| 0 <= i < a.len() implies f(#[trigger] a[i]) by {
            assert((a + b)[i] == a[i]);
        }
        assert forall|i: int| 0 <= i < b.len() implies f(#[trigger] b[i]) by {
            assert((a + b)[a.len() + i] == b[i]);
        }
    }
    if all_in(a, f) && all_in(b, f) {
        assert forall|i: int| 0 <= i < (a + b).len() implies f(#[trigger] (a + b)[i]) by {
            if i < a.len() {
                assert((a + b)[i] == a[i]);
            } else {
                assert((a + b)[i] == b[i - a.len()]);
            }
        }
    }
}

/// Text without whitespace trims to itself.
pub proof fn lemma_trim_clean(s: Seq<char>)
    requires
        all_in(s, |c: char| !is_ws(c)),
    ensures
        trim(s) == s,
{
    if s.len() > 0 {
        assert(!is_ws(s[0]));
        assert(!is_ws(s.last()));
    }
}

/// Splitting text whose tail holds no separator extends the last piece.
proof fn lemma_split_char_tail(a: Seq<char>, b: Seq<char>, c: char)
    requires
        all_in(b, |x: char| x != c),
    ensures
        split_char(a + b, c) == split_char(a, c).update(
            split_char(a, c).len() - 1,
            split_char(a, c).last() + b,
        ),
    decreases b.len(),
{
    lemma_split_char_len(a, c);
    if b.len() == 0 {
        assert(a + b =~= a);
        assert(split_char(a, c).last() + b =~= split_char(a, c).last());
        assert(split_char(a, c).update(split_char(a, c).len() - 1, split_char(a, c).last())
            =~= split_char(a, c));
    } else {
        let init = b.drop_last();
        assert(all_in(init, |x: char| x != c)) by {
            assert forall|i: int| 0 <= i < init.len() implies #[trigger] init[i] != c by {
                assert(init[i] == b[i]);
            }
        }
        lemma_split_char_tail(a, init, c);
        assert((a + b).drop_last() =~= a + init);
        assert((a + b).last() == b.last());
        assert(b.last() != c);
        let r = split_char(a, c);
        assert(r.update(r.len() - 1, r.last() + init).last() == r.last() + init);
        assert((r.last() + init).push(b.last()) =~= r.last() + b);
        assert(split_char(a + b, c) =~= r.update(r.len() - 1, r.last() + b));
    }
}

/// Splitting pieces joined by a separator none of them holds gives them
/// back.
pub proof fn lemma_split_join(ps: Seq<Seq<char>>, c: char)
    requires
        ps.len() >= 1,
        forall|k: int| 0 <= k < ps.len() ==> all_in(#[trigger] ps[k], |x: char| x != c),
    ensures
        split_char(join(ps, seq![c]), c) == ps,
    decreases ps.len(),
{
    if ps.len() == 1 {
        assert(join(ps, seq![c]) == ps[0]);
        lemma_split_char_tail(Seq::empty(), ps[0], c);
        assert(Seq::<char>::empty() + ps[0] =~= ps[0]);
        assert(split_char(Seq::<char>::empty(), c) == seq![Seq::<char>::empty()]);
        assert(Seq::<char>::empty() + ps[0] =~= ps[0]);
        assert(seq![Seq::<char>::empty()].update(0, Seq::<char>::empty() + ps[0]) =~= ps);
    } else {
        let init = ps.drop_last();
        assert forall|k: int| 0 <= k < init.len() implies all_in(#[trigger] init[k], |x: char| x != c) by {
            assert(init[k] == ps[k]);
        }
        lemma_split_join(init, c);
        let a = join(init, seq![c]) + seq![c];
        assert(join(ps, seq![c]) == a + ps.last());
        assert(a.drop_last() =~= join(init, seq![c]));
        assert(split_char(a, c) == init.push(Seq::<char>::empty()));
        assert(all_in(ps.last(), |x: char| x != c)) by {
            assert(ps.last() == ps[ps.len() - 1]);
        }
        lemma_split_char_tail(a, ps.last(), c);
        assert(Seq::<char>::empty() + ps.last() =~= ps.last());
        assert(init.push(Seq::<char>::empty()).update(init.len() as int, Seq::<char>::empty() + ps.last())
            =~= ps);
    }
}

/// The first `c` of `k` + `c` + `v`, when `k` holds none, is right after `k`.
pub proof fn lemma_split_once_at(k: Seq<char>, c: char, v: Seq<char>)
    requires
        all_in(k, |x: char| x != c),
    ensures
        split_once(k + seq![c] + v, c) == Some((k, v)),
{
    let s = k + seq![c] + v;
    let p = seq![c];
    assert(s.subrange(k.len() as int, k.len() + 1int) =~= p);
    assert(occurs_at(s, p, k.len() as int));
    lemma_find_bounds(s, p);
    let i = find(s, p)->Some_0;
    if i < k.len() {
        assert(s.subrange(i, i + 1)[0] == s[i]);
        assert(s[i] == k[i]);
    } else if i > k.len() {
        assert(!occurs_at(s, p, k.len() as int));
    }
    assert(s.subrange(0, k.len() as int) =~= k);
    assert(s.subrange(k.len() + 1int, s.len() as int) =~= v);
}

/// The last `c` of `x` + `c` + `y`, when `y` holds none, is right after `x`.
pub proof fn lemma_last_index_at(x: Seq<char>, c: char, y: Seq<char>)
    requires
        all_in(y, |ch: char| ch != c),
    ensures
        last_index_of(x + seq![c] + y, c) == Some(x.len() as int),
    decreases y.len(),
{
    if y.len() == 0 {
        assert(x + seq![c] + y =~= x.push(c));
    } else {
        let init = y.drop_last();
        assert(all_in(init, |ch: char| ch != c)) by {
            assert forall|i: int| 0 <= i < init.len() implies #[trigger] init[i] != c by {
                assert(init[i] == y[i]);
            }
        }
        lemma_last_index_at(x, c, init);
        assert((x + seq![c] + y).drop_last() =~= x + seq![c] + init);
        assert((x + seq![c] + y).last() == y.last());
        assert(y.last() != c);
    }
}

/// The scan for the end of a port stops at the first stop character.
pub proof fn lemma_stop_at_first(x: Seq<char>, y: Seq<char>, w: bool)
    requires
        all_in(x, |c: char| !is_port_stop(c, w)),
        y.len() == 0 || is_port_stop(y[0], w),
    ensures
        stop_at(x + y, w) == x.len(),
    decreases x.len() + y.len(),
{
    if y.len() == 0 {
        assert(x + y =~= x);
        if x.len() > 0 {
            let init = x.drop_last();
            assert(all_in(init, |c: char| !is_port_stop(c, w))) by {
                assert forall|i: int| 0 <= i < init.len() implies !is_port_stop(#[trigger] init[i], w) by {
                    assert(init[i] == x[i]);
                }
            }
            lemma_stop_at_first(init, Seq::empty(), w);
            assert(init + Seq::<char>::empty() =~= init);
            assert(x.drop_last() =~= init);
            assert(!is_port_stop(x.last(), w));
        }
    } else if y.len() == 1 {
        lemma_stop_at_first(x, Seq::empty(), w);
        assert(x + Seq::<char>::empty() =~= x);
        assert((x + y).drop_last() =~= x);
        assert((x + y).last() == y[0]);
    } else {
        let init = y.drop_last();
        lemma_stop_at_first(x, init, w);
        assert((x + y).drop_last() =~= x + init);
    }
}

/// Characters `pct_encode` writes: ASCII letters, digits and `%`.
pub open spec fn is_pct_char(c: char) -> bool {
    ('0' <= c && c <= '9') || ('A' <= c && c <= 'Z') || ('a' <= c && c <= 'z') || c == '%'
}

proof fn lemma_pct_bytes_chars(b: Seq<u8>)
    ensures
        all_in(pct_bytes(b), |c: char| is_pct_char(c)),
    decreases b.len(),
{
    if b.len() > 0 {
        lemma_pct_bytes_chars(b.drop_last());
        let x = b.last();
        assert(x / 16 < 16 && x % 16 < 16);
        assert(all_in(pct_byte(x), |c: char| is_pct_char(c)));
        lemma_all_in_concat(pct_bytes(b.drop_last()), pct_byte(x), |c: char| is_pct_char(c));
    }
}

/// What `pct_encode` writes holds only letters, digits and `%`.
pub proof fn lemma_pct_encode_chars(s: Seq<char>)
    ensures
        all_in(pct_encode(s), |c: char| is_pct_char(c)),
{
    lemma_pct_bytes_chars(encode_utf8(s));
}

/// Plain ASCII text: no `%`, no `+`.
pub open spec fn is_plain_char(c: char) -> bool {
    '\0' <= c && c <= '\u{7f}' && c != '%' && c != '+'
}

proof fn lemma_decode_plain_bytes(b: Seq<u8>)
    requires
        forall|i: int| 0 <= i < b.len() ==> #[trigger] b[i] != 0x25,
    ensures
        percent_decoded_bytes(b) == b,
    decreases b.len(),
{
    if b.len() > 0 {
        let rest = b.skip(1);
        assert forall|i: int| 0 <= i < rest.len() implies #[trigger] rest[i] != 0x25 by {
            assert(rest[i] == b[i + 1]);
        }
        lemma_decode_plain_bytes(rest);
        assert(seq![b[0]] + rest =~= b);
    }
}

/// A form field of plain ASCII text reads back as itself.
pub proof fn lemma_form_field_plain(x: Seq<char>)
    requires
        all_in(x, |c: char| is_plain_char(c)),
    ensures
        form_field(x) == x,
{
    assert(plus_to_space(x) =~= x);
    assert forall|i: int| 0 <= i < x.len() implies '\0' <= #[trigger] x[i] <= '\u{7f}' by {
        assert(is_plain_char(x[i]));
    }
    assert(is_ascii_chars(x));
    vstd::utf8::is_ascii_chars_encode_utf8(x);
    let b = encode_utf8(x);
    assert forall|i: int| 0 <= i < b.len() implies #[trigger] b[i] != 0x25 by {
        assert(x[i] as u8 == b[i]);
        assert(x[i] != '%');
    }
    lemma_decode_plain_bytes(b);
    vstd::utf8::encode_utf8_valid_utf8(x);
    vstd::utf8::encode_utf8_decode_utf8(x);
}

/// A percent-encoded form field reads back as the text encoded.
pub proof fn lemma_form_field_encoded(v: Seq<char>)
    ensures
        form_field(pct_encode(v)) == v,
{
    lemma_pct_encode_chars(v);
    let e = pct_encode(v);
    assert(plus_to_space(e) =~= e) by {
        assert forall|i: int| 0 <= i < e.len() implies #[trigger] plus_to_space(e)[i] == e[i] by {
            assert(is_pct_char(e[i]));
        }
    }
    lemma_decode_undoes_encode(v);
}

/// Non-empty pieces are read pair by pair.
pub proof fn lemma_form_pieces_all(ps: Seq<Seq<char>>)
    requires
        forall|k: int| 0 <= k < ps.len() ==> (#[trigger] ps[k]).len() > 0,
    ensures
        form_pieces(ps) == ps.map_values(|p: Seq<char>| form_pair(p)),
    decreases ps.len(),
{
    if ps.len() > 0 {
        let init = ps.drop_last();
        assert forall|k: int| 0 <= k < init.len() implies (#[trigger] init[k]).len() > 0 by {
            assert(init[k] == ps[k]);
        }
        lemma_form_pieces_all(init);
        assert(ps.last() == ps[ps.len() - 1]);
        assert(ps.map_values(|p: Seq<char>| form_pair(p)) =~= init.map_values(
            |p: Seq<char>| form_pair(p),
        ).push(form_pair(ps.last())));
    }
}

/// Non-empty pieces without whitespace come through trimming unchanged.
pub proof fn lemma_trimmed_nonempty_clean(ps: Seq<Seq<char>>)
    requires
        forall|k: int|
            0 <= k < ps.len() ==> (#[trigger] ps[k]).len() > 0 && all_in(ps[k], |c: char| !is_ws(c)),
    ensures
        trimmed_nonempty(ps) == ps,
    decreases ps.len(),
{
    if ps.len() > 0 {
        let init = ps.drop_last();
        assert forall|k: int| 0 <= k < init.len() implies (#[trigger] init[k]).len() > 0 && all_in(
            init[k],
            |c: char| !is_ws(c),
        ) by {
            assert(init[k] == ps[k]);
        }
        lemma_trimmed_nonempty_clean(init);
        assert(ps.last() == ps[ps.len() - 1]);
        lemma_trim_clean(ps.last());
        assert(init.push(ps.last()) =~= ps);
    }
}

/// Text without upper-case letters is its own lower case.
pub proof fn lemma_lower_clean(s: Seq<char>)
    requires
        all_in(s, |c: char| !('A' <= c && c <= 'Z')),
    ensures
        lower_seq(s) == s,
{
    assert(lower_seq(s) =~= s);
}

// ---------------------------------------------------------------------------
// Character classes of a built link
// ---------------------------------------------------------------------------

pub open spec fn is_digit(c: char) -> bool {
    '0' <= c && c <= '9'
}

/// Characters of a lower-case DNS name.
pub open spec fn is_host_char(c: char) -> bool {
    ('a' <= c && c <= 'z') || is_digit(c) || c == '.' || c == '-'
}

/// Characters an ALPN protocol id is written with here.
pub open spec fn is_alpn_char(c: char) -> bool {
    ('A' <= c && c <= 'Z') || ('a' <= c && c <= 'z') || is_digit(c) || c == '/' || c == '.' || c
        == '_' || c == '-'
}

proof fn lemma_decimal_digits(n: nat)
    ensures
        all_in(decimal(n), |c: char| is_digit(c)),
    decreases n,
{
    if n >= 10 {
        lemma_decimal_digits(n / 10);
        assert(decimal(n) == decimal(n / 10).push(digit_char(n % 10)));
        assert(decimal(n / 10).push(digit_char(n % 10)) =~= decimal(n / 10) + seq![
            digit_char(n % 10),
        ]);
        lemma_all_in_concat(decimal(n / 10), seq![digit_char(n % 10)], |c: char| is_digit(c));
    }
}

/// A joined list keeps a property every piece and the separator have.
pub proof fn lemma_all_in_join(ps: Seq<Seq<char>>, sep: Seq<char>, f: spec_fn(char) -> bool)
    requires
        all_in(sep, f),
        forall|k: int| 0 <= k < ps.len() ==> all_in(#[trigger] ps[k], f),
    ensures
        all_in(join(ps, sep), f),
    decreases ps.len(),
{
    if ps.len() == 1 {
        assert(all_in(ps[0], f));
    } else if ps.len() > 1 {
        let init = ps.drop_last();
        assert forall|k: int| 0 <= k < init.len() implies all_in(#[trigger] init[k], f) by {
            assert(init[k] == ps[k]);
        }
        lemma_all_in_join(init, sep, f);
        assert(all_in(ps.last(), f)) by {
            assert(ps.last() == ps[ps.len() - 1]);
        }
        lemma_all_in_concat(join(init, sep), sep, f);
        lemma_all_in_concat(join(init, sep) + sep, ps.last(), f);
    }
}

/// A property of every element of a list that holds of each of two parts.
pub proof fn lemma_all_pieces_concat(a: Seq<Seq<char>>, b: Seq<Seq<char>>, f: spec_fn(Seq<char>) -> bool)
    requires
        forall|k: int| 0 <= k < a.len() ==> f(#[trigger] a[k]),
        forall|k: int| 0 <= k < b.len() ==> f(#[trigger] b[k]),
    ensures
        forall|k: int| 0 <= k < (a + b).len() ==> f(#[trigger] (a + b)[k]),
{
    assert forall|k: int| 0 <= k < (a + b).len() implies f(#[trigger] (a + b)[k]) by {
        if k < a.len() {
            assert((a + b)[k] == a[k]);
        } else {
            assert((a + b)[k] == b[k - a.len()]);
        }
    }
}

// ---------------------------------------------------------------------------
// The query of a canonical hysteria2 link
// ---------------------------------------------------------------------------

/// `key=value` read back: the key as it is, the value decoded.
pub proof fn lemma_form_pair_kv(key: Seq<char>, val: Seq<char>)
    requires
        all_in(key, |c: char| is_plain_char(c) && c != '='),
    ensures
        form_pair(key + seq!['='] + val) == (key, form_field(val)),
{
    assert(all_in(key, |c: char| c != '=')) by {
        assert forall|i: int| 0 <= i < key.len() implies #[trigger] key[i] != '=' by {
            assert(is_plain_char(key[i]) && key[i] != '=');
        }
    }
    lemma_split_once_at(key, '=', val);
    assert(all_in(key, |c: char| is_plain_char(c))) by {
        assert forall|i: int| 0 <= i < key.len() implies is_plain_char(#[trigger] key[i]) by {
            assert(is_plain_char(key[i]) && key[i] != '=');
        }
    }
    lemma_form_field_plain(key);
}

/// Characters a query piece of a canonical link is written with.
pub open spec fn is_query_char(c: char) -> bool {
    is_pct_char(c) || is_alpn_char(c) || c == '=' || c == ','
}

/// The pairs the query of a canonical hysteria2 link reads as.
pub open spec fn hy2_decoded(server: Seq<char>, h: Hysteria2View) -> Seq<(Seq<char>, Seq<char>)> {
    opt_pair(h.sni.len() > 0 && h.sni != server, ("sni"@, h.sni)) + opt_pair(
        h.insecure,
        ("insecure"@, "1"@),
    ) + opt_pair(h.alpn.len() > 0, ("alpn"@, join(h.alpn, ","@))) + match h.obfs {
        Some(p) => seq![("obfs"@, "salamander"@), ("obfs-password"@, p)],
        None => Seq::empty(),
    }
}

pub open spec fn opt_pair(cond: bool, p: (Seq<char>, Seq<char>)) -> Seq<(Seq<char>, Seq<char>)> {
    if cond {
        seq![p]
    } else {
        Seq::empty()
    }
}

/// ALPN ids written with `is_alpn_char` only, none of them empty.
pub open spec fn alpn_ok(alpn: Seq<Seq<char>>) -> bool {
    forall|k: int|
        0 <= k < alpn.len() ==> (#[trigger] alpn[k]).len() > 0 && all_in(
            alpn[k],
            |c: char| is_alpn_char(c),
        )
}

/// Characters of the keys and fixed values of a canonical query.
pub open spec fn is_key_char(c: char) -> bool {
    ('a' <= c && c <= 'z') || ('0' <= c && c <= '9') || c == '-'
}

proof fn lemma_lit_sni()
    ensures
        "sni="@ == "sni"@ + seq!['='],
        all_in("sni"@, |c: char| is_key_char(c)),
{
    reveal_strlit("sni=");
    reveal_strlit("sni");
    assert("sni="@ =~= "sni"@ + seq!['=']);
}

proof fn lemma_lit_insecure()
    ensures
        "insecure=1"@ == "insecure"@ + seq!['='] + "1"@,
        all_in("insecure"@, |c: char| is_key_char(c)),
        all_in("1"@, |c: char| is_key_char(c)),
{
    reveal_strlit("insecure=1");
    reveal_strlit("insecure");
    reveal_strlit("1");
    assert("insecure=1"@ =~= "insecure"@ + seq!['='] + "1"@);
}

proof fn lemma_lit_alpn()
    ensures
        "alpn="@ == "alpn"@ + seq!['='],
        all_in("alpn"@, |c: char| is_key_char(c)),
        ","@ == seq![','],
{
    reveal_strlit("alpn=");
    reveal_strlit("alpn");
    reveal_strlit(",");
    assert("alpn="@ =~= "alpn"@ + seq!['=']);
    assert(","@ =~= seq![',']);
}

proof fn lemma_lit_obfs()
    ensures
        "obfs=salamander"@ == "obfs"@ + seq!['='] + "salamander"@,
        "obfs-password="@ == "obfs-password"@ + seq!['='],
        all_in("obfs"@, |c: char| is_key_char(c)),
        all_in("obfs-password"@, |c: char| is_key_char(c)),
        all_in("salamander"@, |c: char| is_key_char(c)),
{
    reveal_strlit("obfs=salamander");
    reveal_strlit("obfs");
    reveal_strlit("salamander");
    reveal_strlit("obfs-password=");
    reveal_strlit("obfs-password");
    assert("obfs=salamander"@ =~= "obfs"@ + seq!['='] + "salamander"@);
    assert("obfs-password="@ =~= "obfs-password"@ + seq!['=']);
}

/// A query piece of a canonical link: non-empty, written with query
/// characters.
pub open spec fn piece_ok(p: Seq<char>) -> bool {
    p.len() > 0 && all_in(p, |c: char| is_query_char(c))
}

pub proof fn lemma_key_chars(key: Seq<char>)
    requires
        all_in(key, |c: char| is_key_char(c)),
    ensures
        all_in(key, |c: char| is_plain_char(c) && c != '='),
        all_in(key, |c: char| is_plain_char(c)),
        all_in(key, |c: char| is_query_char(c)),
{
    assert forall|i: int| 0 <= i < key.len() implies is_plain_char(#[trigger] key[i]) && key[i]
        != '=' && is_query_char(key[i]) by {
        assert(is_key_char(key[i]));
    }
}

/// `key=` and a percent-encoded value: a piece that reads back as the pair.
proof fn lemma_encoded_piece(key: Seq<char>, v: Seq<char>)
    requires
        all_in(key, |c: char| is_key_char(c)),
    ensures
        piece_ok(key + seq!['='] + pct_encode(v)),
        form_pair(key + seq!['='] + pct_encode(v)) == (key, v),
{
    lemma_key_chars(key);
    lemma_pct_encode_chars(v);
    assert(all_in(pct_encode(v), |c: char| is_query_char(c))) by {
        assert forall|i: int| 0 <= i < pct_encode(v).len() implies is_query_char(
            #[trigger] pct_encode(v)[i],
        ) by {
            assert(is_pct_char(pct_encode(v)[i]));
        }
    }
    assert(all_in(seq!['='], |c: char| is_query_char(c)));
    lemma_all_in_concat(key, seq!['='], |c: char| is_query_char(c));
    lemma_all_in_concat(key + seq!['='], pct_encode(v), |c: char| is_query_char(c));
    lemma_form_pair_kv(key, pct_encode(v));
    lemma_form_field_encoded(v);
}

/// `key=` and a plain value: a piece that reads back as the pair.
proof fn lemma_plain_piece(key: Seq<char>, v: Seq<char>)
    requires
        all_in(key, |c: char| is_key_char(c)),
        all_in(v, |c: char| is_plain_char(c) && is_query_char(c)),
    ensures
        piece_ok(key + seq!['='] + v),
        form_pair(key + seq!['='] + v) == (key, v),
{
    lemma_key_chars(key);
    assert(all_in(v, |c: char| is_query_char(c))) by {
        assert forall|i: int| 0 <= i < v.len() implies is_query_char(#[trigger] v[i]) by {
            assert(is_plain_char(v[i]) && is_query_char(v[i]));
        }
    }
    assert(all_in(v, |c: char| is_plain_char(c))) by {
        assert forall|i: int| 0 <= i < v.len() implies is_plain_char(#[trigger] v[i]) by {
            assert(is_plain_char(v[i]) && is_query_char(v[i]));
        }
    }
    assert(all_in(seq!['='], |c: char| is_query_char(c)));
    lemma_all_in_concat(key, seq!['='], |c: char| is_query_char(c));
    lemma_all_in_concat(key + seq!['='], v, |c: char| is_query_char(c));
    lemma_form_pair_kv(key, v);
    lemma_form_field_plain(v);
}

pub open spec fn pieces_ok(ps: Seq<Seq<char>>) -> bool {
    forall|k: int| 0 <= k < ps.len() ==> piece_ok(#[trigger] ps[k])
}

proof fn lemma_opt_piece(cond: bool, piece: Seq<char>, pair: (Seq<char>, Seq<char>))
    requires
        piece_ok(piece),
        form_pair(piece) == pair,
    ensures
        pieces_ok(opt_piece(cond, piece)),
        read_pairs(opt_piece(cond, piece)) == opt_pair(cond, pair),
{
    assert(read_pairs(opt_piece(cond, piece)) =~= opt_pair(cond, pair));
}

proof fn lemma_pieces_ok_concat(a: Seq<Seq<char>>, b: Seq<Seq<char>>)
    requires
        pieces_ok(a),
        pieces_ok(b),
    ensures
        pieces_ok(a + b),
{
    assert forall|k: int| 0 <= k < (a + b).len() implies piece_ok(#[trigger] (a + b)[k]) by {
        if k < a.len() {
            assert((a + b)[k] == a[k]);
        } else {
            assert((a + b)[k] == b[k - a.len()]);
        }
    }
}

pub open spec fn read_pairs(ps: Seq<Seq<char>>) -> Seq<(Seq<char>, Seq<char>)> {
    ps.map_values(|p: Seq<char>| form_pair(p))
}

proof fn lemma_read_pairs_concat(a: Seq<Seq<char>>, b: Seq<Seq<char>>)
    ensures
        read_pairs(a + b) == read_pairs(a) + read_pairs(b),
{
    assert(read_pairs(a + b) =~= read_pairs(a) + read_pairs(b));
}

/// A fixed value of key characters is a plain value of query characters.
proof fn lemma_fixed_value(v: Seq<char>)
    requires
        all_in(v, |c: char| is_key_char(c)),
    ensures
        all_in(v, |c: char| is_plain_char(c) && is_query_char(c)),
{
    assert forall|i: int| 0 <= i < v.len() implies is_plain_char(#[trigger] v[i]) && is_query_char(
        v[i],
    ) by {
        assert(is_key_char(v[i]));
    }
}

/// The joined ALPN ids are a plain value of query characters.
proof fn lemma_alpn_value(alpn: Seq<Seq<char>>)
    requires
        alpn_ok(alpn),
    ensures
        all_in(join(alpn, ","@), |c: char| is_plain_char(c) && is_query_char(c)),
{
    lemma_lit_alpn();
    let g = |c: char| is_plain_char(c) && is_query_char(c);
    assert forall|k: int| 0 <= k < alpn.len() implies all_in(#[trigger] alpn[k], g) by {
        assert(all_in(alpn[k], |c: char| is_alpn_char(c)));
        assert forall|i: int| 0 <= i < alpn[k].len() implies g(#[trigger] alpn[k][i]) by {
            assert(is_alpn_char(alpn[k][i]));
        }
    }
    assert(all_in(","@, g));
    lemma_all_in_join(alpn, ","@, g);
}

proof fn lemma_sni_part(server: Seq<char>, sni: Seq<char>)
    ensures
        pieces_ok(opt_piece(sni.len() > 0 && sni != server, "sni="@ + pct_encode(sni))),
        read_pairs(opt_piece(sni.len() > 0 && sni != server, "sni="@ + pct_encode(sni)))
            == opt_pair(sni.len() > 0 && sni != server, ("sni"@, sni)),
{
    lemma_lit_sni();
    lemma_encoded_piece("sni"@, sni);
    lemma_opt_piece(sni.len() > 0 && sni != server, "sni="@ + pct_encode(sni), ("sni"@, sni));
}

proof fn lemma_insecure_part(on: bool)
    ensures
        pieces_ok(opt_piece(on, "insecure=1"@)),
        read_pairs(opt_piece(on, "insecure=1"@)) == opt_pair(on, ("insecure"@, "1"@)),
{
    lemma_lit_insecure();
    lemma_fixed_value("1"@);
    lemma_plain_piece("insecure"@, "1"@);
    lemma_opt_piece(on, "insecure=1"@, ("insecure"@, "1"@));
}

proof fn lemma_alpn_part(alpn: Seq<Seq<char>>)
    requires
        alpn_ok(alpn),
    ensures
        pieces_ok(opt_piece(alpn.len() > 0, "alpn="@ + join(alpn, ","@))),
        read_pairs(opt_piece(alpn.len() > 0, "alpn="@ + join(alpn, ","@))) == opt_pair(
            alpn.len() > 0,
            ("alpn"@, join(alpn, ","@)),
        ),
{
    lemma_lit_alpn();
    lemma_alpn_value(alpn);
    lemma_plain_piece("alpn"@, join(alpn, ","@));
    lemma_opt_piece(alpn.len() > 0, "alpn="@ + join(alpn, ","@), ("alpn"@, join(alpn, ","@)));
}

proof fn lemma_obfs_pieces_read(pw: Seq<char>)
    ensures
        piece_ok("obfs=salamander"@),
        piece_ok("obfs-password="@ + pct_encode(pw)),
        form_pair("obfs=salamander"@) == ("obfs"@, "salamander"@),
        form_pair("obfs-password="@ + pct_encode(pw)) == ("obfs-password"@, pw),
{
    lemma_lit_obfs();
    lemma_fixed_value("salamander"@);
    lemma_plain_piece("obfs"@, "salamander"@);
    lemma_encoded_piece("obfs-password"@, pw);
}

#[verifier::spinoff_prover]
#[verifier::rlimit(40)]
proof fn lemma_obfs_part(obfs: Option<Seq<char>>)
    ensures
        pieces_ok(obfs_pieces(obfs)),
        read_pairs(obfs_pieces(obfs)) == match obfs {
            Some(p) => seq![("obfs"@, "salamander"@), ("obfs-password"@, p)],
            None => Seq::<(Seq<char>, Seq<char>)>::empty(),
        },
{
    match obfs {
        Some(pw) => {
            lemma_obfs_pieces_read(pw);
            let x = "obfs=salamander"@;
            let y = "obfs-password="@ + pct_encode(pw);
            let pd = obfs_pieces(obfs);
            assert(pd =~= seq![x, y]);
            assert(pd[0] == x);
            assert(pd[1] == y);
            assert(read_pairs(pd) =~= seq![("obfs"@, "salamander"@), ("obfs-password"@, pw)]);
        },
        None => {
            assert(read_pairs(obfs_pieces(obfs)) =~= Seq::<(Seq<char>, Seq<char>)>::empty());
        },
    }
}

/// Every piece of a canonical hysteria2 query is non-empty and written with
/// query characters, and the pieces read back as `hy2_decoded`.
pub proof fn lemma_hy2_query(server: Seq<char>, h: Hysteria2View)
    requires
        alpn_ok(h.alpn),
    ensures
        pieces_ok(hy2_pieces(server, h)),
        read_pairs(hy2_pieces(server, h)) == hy2_decoded(server, h),
{
    let pa = opt_piece(h.sni.len() > 0 && h.sni != server, "sni="@ + pct_encode(h.sni));
    let pb = opt_piece(h.insecure, "insecure=1"@);
    let pc = opt_piece(h.alpn.len() > 0, "alpn="@ + join(h.alpn, ","@));
    let pd = obfs_pieces(h.obfs);
    assert(hy2_pieces(server, h) == pa + pb + pc + pd);
    lemma_sni_part(server, h.sni);
    lemma_insecure_part(h.insecure);
    lemma_alpn_part(h.alpn);
    lemma_obfs_part(h.obfs);
    lemma_read_pairs_concat(pa, pb);
    lemma_read_pairs_concat(pa + pb, pc);
    lemma_read_pairs_concat(pa + pb + pc, pd);
    lemma_pieces_ok_concat(pa, pb);
    lemma_pieces_ok_concat(pa + pb, pc);
    lemma_pieces_ok_concat(pa + pb + pc, pd);
}

/// The query a canonical hysteria2 link carries, if any.
pub open spec fn hy2_query(server: Seq<char>, h: Hysteria2View) -> Option<Seq<char>> {
    if hy2_pieces(server, h).len() == 0 {
        None
    } else {
        Some(join(hy2_pieces(server, h), "&"@))
    }
}

/// The query of a canonical hysteria2 link reads back as `hy2_decoded`.
pub proof fn lemma_hy2_pairs(server: Seq<char>, h: Hysteria2View, u: UrlView)
    requires
        alpn_ok(h.alpn),
        u.query == hy2_query(server, h),
    ensures
        hy2_pairs(u) == hy2_decoded(server, h),
{
    lemma_hy2_query(server, h);
    let ps = hy2_pieces(server, h);
    if ps.len() == 0 {
        assert(read_pairs(ps) =~= Seq::<(Seq<char>, Seq<char>)>::empty());
    } else {
        reveal_strlit("&");
        assert("&"@ =~= seq!['&']);
        assert forall|k: int| 0 <= k < ps.len() implies all_in(#[trigger] ps[k], |x: char| x != '&') by {
            assert(piece_ok(ps[k]));
            assert forall|i: int| 0 <= i < ps[k].len() implies #[trigger] ps[k][i] != '&' by {
                assert(is_query_char(ps[k][i]));
            }
        }
        lemma_split_join(ps, '&');
        assert forall|k: int| 0 <= k < ps.len() implies (#[trigger] ps[k]).len() > 0 by {
            assert(piece_ok(ps[k]));
        }
        lemma_form_pieces_all(ps);
    }
}

proof fn lemma_lower_key(k: Seq<char>)
    requires
        all_in(k, |c: char| is_key_char(c)),
    ensures
        lower_seq(k) == k,
{
    assert forall|i: int| 0 <= i < k.len() implies !('A' <= #[trigger] k[i] && k[i] <= 'Z') by {
        assert(is_key_char(k[i]));
    }
    lemma_lower_clean(k);
}

proof fn lemma_params_push(a: Seq<(Seq<char>, Seq<char>)>, e: (Seq<char>, Seq<char>))
    ensures
        hy2_params(a.push(e)) == match hy2_params(a) {
            Err(er) => Err(er),
            Ok(p) => hy2_step(p, e.0, e.1),
        },
{
    assert(a.push(e).drop_last() =~= a);
}

/// The parameters a canonical hysteria2 query sets.
pub open spec fn hy2_expected_params(server: Seq<char>, h: Hysteria2View) -> Hy2Params {
    Hy2Params {
        sni: if h.sni.len() > 0 && h.sni != server {
            h.sni
        } else {
            Seq::empty()
        },
        insecure: h.insecure,
        alpn: h.alpn,
        obfs_type: match h.obfs {
            Some(_) => Some("salamander"@),
            None => None,
        },
        obfs_password: h.obfs,
    }
}

proof fn lemma_step_sni(p: Hy2Params, v: Seq<char>)
    ensures
        hy2_step(p, "sni"@, v) == Ok::<Hy2Params, ErrorView>(Hy2Params { sni: v, ..p }),
{
    lemma_lit_sni();
    lemma_lower_key("sni"@);
}

proof fn lemma_step_insecure(p: Hy2Params)
    ensures
        hy2_step(p, "insecure"@, "1"@) == Ok::<Hy2Params, ErrorView>(Hy2Params { insecure: true, ..p }),
{
    lemma_lit_insecure();
    lemma_lower_key("insecure"@);
    lemma_lower_key("1"@);
    reveal_strlit("sni");
    reveal_strlit("insecure");
    reveal_strlit("1");
    assert("insecure"@ != "sni"@) by {
        assert("insecure"@.len() != "sni"@.len());
    }
}

proof fn lemma_step_alpn(p: Hy2Params, alpn: Seq<Seq<char>>)
    requires
        alpn_ok(alpn),
        alpn.len() > 0,
    ensures
        hy2_step(p, "alpn"@, join(alpn, ","@)) == Ok::<Hy2Params, ErrorView>(
            Hy2Params { alpn: alpn, ..p },
        ),
{
    lemma_lit_alpn();
    lemma_lower_key("alpn"@);
    reveal_strlit("sni");
    reveal_strlit("insecure");
    reveal_strlit("allowinsecure");
    reveal_strlit("alpn");
    assert("alpn"@ != "sni"@ && "alpn"@ != "insecure"@ && "alpn"@ != "allowinsecure"@) by {
        assert("alpn"@.len() == 4 && "sni"@.len() == 3 && "insecure"@.len() == 8
            && "allowinsecure"@.len() == 13);
    }
    let jn = join(alpn, ","@);
    assert forall|k: int| 0 <= k < alpn.len() implies all_in(#[trigger] alpn[k], |x: char| x != ',') by {
        assert(all_in(alpn[k], |c: char| is_alpn_char(c)));
        assert forall|i: int| 0 <= i < alpn[k].len() implies #[trigger] alpn[k][i] != ',' by {
            assert(is_alpn_char(alpn[k][i]));
        }
    }
    lemma_split_join(alpn, ',');
    assert forall|k: int| 0 <= k < alpn.len() implies (#[trigger] alpn[k]).len() > 0 && all_in(
        alpn[k],
        |c: char| !is_ws(c),
    ) by {
        assert(all_in(alpn[k], |c: char| is_alpn_char(c)));
        assert forall|i: int| 0 <= i < alpn[k].len() implies !is_ws(#[trigger] alpn[k][i]) by {
            assert(is_alpn_char(alpn[k][i]));
        }
    }
    lemma_trimmed_nonempty_clean(alpn);
    assert(alpn[0].len() > 0);
    assert(jn.len() > 0) by {
        lemma_join_len(alpn, ","@);
    }
}

proof fn lemma_join_len(ps: Seq<Seq<char>>, sep: Seq<char>)
    requires
        ps.len() > 0,
    ensures
        join(ps, sep).len() >= ps.last().len(),
{
}

proof fn lemma_step_obfs(p: Hy2Params, pw: Seq<char>)
    ensures
        hy2_step(p, "obfs"@, "salamander"@) == Ok::<Hy2Params, ErrorView>(
            Hy2Params { obfs_type: Some("salamander"@), ..p },
        ),
        hy2_step(p, "obfs-password"@, pw) == Ok::<Hy2Params, ErrorView>(
            Hy2Params { obfs_password: Some(pw), ..p },
        ),
{
    lemma_lit_obfs();
    lemma_lower_key("obfs"@);
    lemma_lower_key("obfs-password"@);
    lemma_lower_key("salamander"@);
    reveal_strlit("sni");
    reveal_strlit("insecure");
    reveal_strlit("allowinsecure");
    reveal_strlit("alpn");
    reveal_strlit("obfs");
    reveal_strlit("obfs-password");
    assert("obfs"@ != "sni"@ && "obfs"@ != "insecure"@ && "obfs"@ != "allowinsecure"@ && "obfs"@
        != "alpn"@) by {
        assert("obfs"@[0] != "alpn"@[0]);
        assert("obfs"@.len() == 4 && "sni"@.len() == 3 && "insecure"@.len() == 8
            && "allowinsecure"@.len() == 13);
    }
    assert("obfs-password"@ != "sni"@ && "obfs-password"@ != "insecure"@ && "obfs-password"@
        != "allowinsecure"@ && "obfs-password"@ != "alpn"@ && "obfs-password"@ != "obfs"@) by {
        assert("obfs-password"@[0] != "allowinsecure"@[0]);
        assert("obfs-password"@.len() == 13 && "sni"@.len() == 3 && "insecure"@.len() == 8
            && "alpn"@.len() == 4 && "obfs"@.len() == 4);
    }
}

proof fn lemma_params_opt(a: Seq<(Seq<char>, Seq<char>)>, cond: bool, e: (Seq<char>, Seq<char>))
    ensures
        hy2_params(a + opt_pair(cond, e)) == if cond {
            match hy2_params(a) {
                Err(er) => Err(er),
                Ok(p) => hy2_step(p, e.0, e.1),
            }
        } else {
            hy2_params(a)
        },
{
    if cond {
        assert(a + opt_pair(cond, e) =~= a.push(e));
    } else {
        assert(a + opt_pair(cond, e) =~= a);
    }
    lemma_params_push(a, e);
}

/// A canonical hysteria2 query sets exactly the link's parameters.
pub proof fn lemma_hy2_params(server: Seq<char>, h: Hysteria2View)
    requires
        alpn_ok(h.alpn),
    ensures
        hy2_params(hy2_decoded(server, h)) == Ok::<Hy2Params, ErrorView>(
            hy2_expected_params(server, h),
        ),
{
    let sni_on = h.sni.len() > 0 && h.sni != server;
    let d1 = opt_pair(sni_on, ("sni"@, h.sni));
    let d2 = opt_pair(h.insecure, ("insecure"@, "1"@));
    let d3 = opt_pair(h.alpn.len() > 0, ("alpn"@, join(h.alpn, ","@)));
    let d4: Seq<(Seq<char>, Seq<char>)> = match h.obfs {
        Some(p) => seq![("obfs"@, "salamander"@), ("obfs-password"@, p)],
        None => Seq::empty(),
    };
    assert(hy2_decoded(server, h) == d1 + d2 + d3 + d4);
    let e: Seq<(Seq<char>, Seq<char>)> = Seq::empty();
    assert(hy2_params(e) == Ok::<Hy2Params, ErrorView>(hy2_initial()));
    lemma_params_opt(e, sni_on, ("sni"@, h.sni));
    assert(e + d1 =~= d1);
    lemma_step_sni(hy2_initial(), h.sni);
    let p1 = Hy2Params { sni: if sni_on { h.sni } else { Seq::empty() }, ..hy2_initial() };
    assert(hy2_params(d1) == Ok::<Hy2Params, ErrorView>(p1));
    lemma_params_opt(d1, h.insecure, ("insecure"@, "1"@));
    lemma_step_insecure(p1);
    let p2 = Hy2Params { insecure: h.insecure, ..p1 };
    assert(hy2_params(d1 + d2) == Ok::<Hy2Params, ErrorView>(p2));
    lemma_params_opt(d1 + d2, h.alpn.len() > 0, ("alpn"@, join(h.alpn, ","@)));
    let p3 = Hy2Params { alpn: h.alpn, ..p2 };
    if h.alpn.len() > 0 {
        lemma_step_alpn(p2, h.alpn);
    } else {
        assert(h.alpn =~= Seq::<Seq<char>>::empty());
        assert(p3 == p2);
    }
    assert(hy2_params(d1 + d2 + d3) == Ok::<Hy2Params, ErrorView>(p3));
    match h.obfs {
        Some(pw) => {
            let a = d1 + d2 + d3;
            let x = ("obfs"@, "salamander"@);
            let y = ("obfs-password"@, pw);
            assert(a + d4 =~= a.push(x).push(y));
            lemma_params_push(a, x);
            lemma_params_push(a.push(x), y);
            lemma_step_obfs(p3, pw);
            let p4 = Hy2Params { obfs_type: Some("salamander"@), ..p3 };
            lemma_step_obfs(p4, pw);
            assert(hy2_params(a + d4) == Ok::<Hy2Params, ErrorView>(
                Hy2Params { obfs_password: Some(pw), ..p4 },
            ));
        },
        None => {
            assert(d1 + d2 + d3 + d4 =~= d1 + d2 + d3);
        },
    }
}

// ---------------------------------------------------------------------------
// The whole canonical hysteria2 link
// ---------------------------------------------------------------------------

/// Characters a canonical link is written with.
pub open spec fn is_link_char(c: char) -> bool {
    is_query_char(c) || is_host_char(c) || c == ':' || c == '/' || c == '?' || c == '#' || c
        == '@' || c == '&'
}

/// The authority of a canonical hysteria2 link.
pub open spec fn hy2_authority(pw: Seq<char>, server: Seq<char>, port: u16) -> Seq<char> {
    pct_encode(pw) + "@"@ + server + ":"@ + decimal(port as nat)
}

/// What follows the authority: the query, if any, and the name.
pub open spec fn hy2_tail(server: Seq<char>, name: Seq<char>, h: Hysteria2View) -> Seq<char> {
    query_suffix(hy2_pieces(server, h)) + fragment_suffix(name)
}

/// A server name, port, name and node a canonical hysteria2 link can be
/// read back from: a lower-case DNS name that is no IP address, a password
/// and an SNI, a name that is not blank, and ALPN ids of `is_alpn_char`.
pub open spec fn hy2_round_trip_ok(server: Seq<char>, name: Seq<char>, h: Hysteria2View) -> bool {
    &&& server.len() > 0
    &&& all_in(server, |c: char| is_host_char(c))
    &&& !is_ip_address(server)
    &&& h.password.len() > 0
    &&& h.sni.len() > 0
    &&& !is_blank(name)
    &&& alpn_ok(h.alpn)
}

proof fn lemma_lit_link()
    ensures
        "hysteria2://"@ == "hysteria2"@ + "://"@,
        "://"@ == seq![':', '/', '/'],
        "@"@ == seq!['@'],
        ":"@ == seq![':'],
        "?"@ == seq!['?'],
        "#"@ == seq!['#'],
        "&"@ == seq!['&'],
        "hysteria2"@.len() == 9,
        all_in("hysteria2"@, |c: char| ('a' <= c && c <= 'z') || c == '2'),
{
    reveal_strlit("hysteria2://");
    reveal_strlit("hysteria2");
    reveal_strlit("://");
    reveal_strlit("@");
    reveal_strlit(":");
    reveal_strlit("?");
    reveal_strlit("#");
    reveal_strlit("&");
    assert("hysteria2://"@ =~= "hysteria2"@ + "://"@);
    assert("://"@ =~= seq![':', '/', '/']);
    assert("@"@ =~= seq!['@']);
    assert(":"@ =~= seq![':']);
    assert("?"@ =~= seq!['?']);
    assert("#"@ =~= seq!['#']);
    assert("&"@ =~= seq!['&']);
}

proof fn lemma_host_form_plain(server: Seq<char>)
    requires
        all_in(server, |c: char| is_host_char(c)),
    ensures
        host_form(server) == server,
        !server.contains(':'),
{
    if server.contains(':') {
        let k = choose|k: int| 0 <= k < server.len() && server[k] == ':';
        assert(is_host_char(server[k]));
    }
}

proof fn lemma_class_weaken(s: Seq<char>, f: spec_fn(char) -> bool, g: spec_fn(char) -> bool)
    requires
        all_in(s, f),
        forall|c: char| #[trigger] f(c) ==> g(c),
    ensures
        all_in(s, g),
{
    assert forall|i: int| 0 <= i < s.len() implies g(#[trigger] s[i]) by {
        assert(f(s[i]));
    }
}

/// The authority holds no `?`, `#`, `/`; after its one `@` come the host,
/// `:` and the port's digits.
proof fn lemma_authority_chars(pw: Seq<char>, server: Seq<char>, port: u16)
    requires
        all_in(server, |c: char| is_host_char(c)),
    ensures
        all_in(hy2_authority(pw, server, port), |c: char| !is_port_stop(c, true)),
        all_in(hy2_authority(pw, server, port), |c: char| is_link_char(c)),
        all_in(server + ":"@ + decimal(port as nat), |c: char| c != '@'),
        all_in(decimal(port as nat), |c: char| c != ':' && c != '-' && c != ',' && !is_port_stop(c, true)),
{
    lemma_lit_link();
    lemma_pct_encode_chars(pw);
    lemma_decimal_digits(port as nat);
    let d = decimal(port as nat);
    let pe = pct_encode(pw);
    lemma_class_weaken(pe, |c: char| is_pct_char(c), |c: char| !is_port_stop(c, true) && is_link_char(c));
    lemma_class_weaken(server, |c: char| is_host_char(c), |c: char| !is_port_stop(c, true) && is_link_char(c) && c != '@');
    lemma_class_weaken(d, |c: char| is_digit(c), |c: char| !is_port_stop(c, true) && is_link_char(c) && c != '@' && c != ':' && c != '-' && c != ',');
    let g = |c: char| !is_port_stop(c, true) && is_link_char(c);
    let g2 = |c: char| !is_port_stop(c, true) && is_link_char(c) && c != '@';
    assert(all_in("@"@, g));
    assert(all_in(":"@, g2));
    lemma_class_weaken(server, |c: char| is_host_char(c), g2);
    lemma_class_weaken(d, |c: char| is_digit(c), g2);
    lemma_all_in_concat(server, ":"@, g2);
    lemma_all_in_concat(server + ":"@, d, g2);
    lemma_class_weaken(server + ":"@ + d, g2, g);
    lemma_class_weaken(server + ":"@ + d, g2, |c: char| c != '@');
    lemma_class_weaken(pe, |c: char| is_pct_char(c), g);
    lemma_all_in_concat(pe, "@"@, g);
    lemma_all_in_concat(pe + "@"@, server + ":"@ + d, g);
    assert(hy2_authority(pw, server, port) =~= pe + "@"@ + (server + ":"@ + d));
    lemma_class_weaken(hy2_authority(pw, server, port), g, |c: char| !is_port_stop(c, true));
    lemma_class_weaken(hy2_authority(pw, server, port), g, |c: char| is_link_char(c));
    lemma_class_weaken(d, |c: char| is_digit(c), |c: char| c != ':' && c != '-' && c != ',' && !is_port_stop(c, true));
}

proof fn lemma_tail_chars(server: Seq<char>, name: Seq<char>, h: Hysteria2View)
    requires
        alpn_ok(h.alpn),
        name.len() > 0,
    ensures
        all_in(hy2_tail(server, name, h), |c: char| is_link_char(c)),
        hy2_tail(server, name, h).len() > 0,
        is_port_stop(hy2_tail(server, name, h)[0], true),
{
    lemma_lit_link();
    lemma_hy2_query(server, h);
    let ps = hy2_pieces(server, h);
    let fr = fragment_suffix(name);
    lemma_pct_encode_chars(name);
    lemma_class_weaken(pct_encode(name), |c: char| is_pct_char(c), |c: char| is_link_char(c));
    assert(all_in("#"@, |c: char| is_link_char(c)));
    assert(fr == "#"@ + pct_encode(name));
    lemma_all_in_concat("#"@, pct_encode(name), |c: char| is_link_char(c));
    let q = query_suffix(ps);
    if ps.len() == 0 {
        assert(q =~= Seq::<char>::empty());
        assert(hy2_tail(server, name, h) =~= fr);
    } else {
        assert forall|k: int| 0 <= k < ps.len() implies all_in(#[trigger] ps[k], |c: char| is_link_char(c)) by {
            assert(piece_ok(ps[k]));
            lemma_class_weaken(ps[k], |c: char| is_query_char(c), |c: char| is_link_char(c));
        }
        assert(all_in("&"@, |c: char| is_link_char(c)));
        lemma_all_in_join(ps, "&"@, |c: char| is_link_char(c));
        assert(all_in("?"@, |c: char| is_link_char(c)));
        lemma_all_in_concat("?"@, join(ps, "&"@), |c: char| is_link_char(c));
        assert(q == "?"@ + join(ps, "&"@));
        assert((q + fr)[0] == '?');
    }
    lemma_all_in_concat(q, fr, |c: char| is_link_char(c));
}

/// `pre` + `://` + `rest`, with no `:` in `pre`: the first `://` ends `pre`.
proof fn lemma_find_scheme(pre: Seq<char>, rest: Seq<char>)
    requires
        all_in(pre, |c: char| c != ':'),
    ensures
        find(pre + "://"@ + rest, "://"@) == Some(pre.len() as int),
{
    reveal_strlit("://");
    assert("://"@ =~= seq![':', '/', '/']);
    let s = pre + "://"@ + rest;
    let p = "://"@;
    assert(s.subrange(pre.len() as int, pre.len() + 3int) =~= p);
    assert(occurs_at(s, p, pre.len() as int));
    lemma_find_bounds(s, p);
    let i = find(s, p)->Some_0;
    if i < pre.len() {
        assert(s.subrange(i, i + 3)[0] == s[i]);
        assert(s[i] == pre[i]);
    } else if i > pre.len() {
        assert(!occurs_at(s, p, pre.len() as int));
    }
}

proof fn lemma_link_char_not_ws(c: char)
    ensures
        is_link_char(c) ==> !is_ws(c),
{
}

proof fn lemma_link_parts(server: Seq<char>, port: u16, name: Seq<char>, h: Hysteria2View)
    requires
        hy2_round_trip_ok(server, name, h),
    ensures
        canonical_hysteria2(server, port, name, h) == "hysteria2"@ + "://"@ + (hy2_authority(
            h.password,
            server,
            port,
        ) + hy2_tail(server, name, h)),
        all_in(canonical_hysteria2(server, port, name, h), |c: char| is_link_char(c)),
{
    lemma_lit_link();
    lemma_host_form_plain(server);
    assert(name.len() > 0);
    let auth = hy2_authority(h.password, server, port);
    let tail = hy2_tail(server, name, h);
    let link = canonical_hysteria2(server, port, name, h);
    assert(link =~= "hysteria2"@ + "://"@ + (auth + tail));
    lemma_authority_chars(h.password, server, port);
    lemma_tail_chars(server, name, h);
    let scheme_ok = |c: char| ('a' <= c && c <= 'z') || c == '2';
    lemma_class_weaken("hysteria2"@, scheme_ok, |c: char| is_link_char(c));
    assert(all_in("://"@, |c: char| is_link_char(c)));
    lemma_all_in_concat("hysteria2"@, "://"@, |c: char| is_link_char(c));
    lemma_all_in_concat(auth, tail, |c: char| is_link_char(c));
    lemma_all_in_concat("hysteria2"@ + "://"@, auth + tail, |c: char| is_link_char(c));
}

proof fn lemma_link_trim(server: Seq<char>, port: u16, name: Seq<char>, h: Hysteria2View)
    requires
        hy2_round_trip_ok(server, name, h),
    ensures
        trim(canonical_hysteria2(server, port, name, h)) == canonical_hysteria2(server, port, name, h),
{
    lemma_link_parts(server, port, name, h);
    let link = canonical_hysteria2(server, port, name, h);
    assert forall|c: char| #[trigger] is_link_char(c) implies !is_ws(c) by {
        lemma_link_char_not_ws(c);
    }
    lemma_class_weaken(link, |c: char| is_link_char(c), |c: char| !is_ws(c));
    lemma_trim_clean(link);
}

proof fn lemma_link_scheme(server: Seq<char>, port: u16, name: Seq<char>, h: Hysteria2View)
    requires
        hy2_round_trip_ok(server, name, h),
    ensures
        starts_with(lower_seq(canonical_hysteria2(server, port, name, h)), "hysteria2://"@),
{
    lemma_link_parts(server, port, name, h);
    lemma_lit_link();
    let link = canonical_hysteria2(server, port, name, h);
    let scheme_ok = |c: char| ('a' <= c && c <= 'z') || c == '2';
    assert(link.subrange(0, 12) =~= "hysteria2://"@);
    assert(lower_seq(link).subrange(0, 12) =~= lower_seq("hysteria2://"@));
    lemma_class_weaken("hysteria2"@, scheme_ok, |c: char| !('A' <= c && c <= 'Z'));
    assert(all_in("://"@, |c: char| !('A' <= c && c <= 'Z')));
    lemma_all_in_concat("hysteria2"@, "://"@, |c: char| !('A' <= c && c <= 'Z'));
    lemma_lower_clean("hysteria2://"@);
}

proof fn lemma_port_field(pw: Seq<char>, server: Seq<char>, port: u16)
    requires
        all_in(server, |c: char| is_host_char(c)),
    ensures
        ({
            let auth = hy2_authority(pw, server, port);
            let hp = match last_index_of(auth, '@') {
                Some(k) => auth.subrange(k + 1, auth.len() as int),
                None => auth,
            };
            !crate::parser::hysteria2::multi_port_after_colon(hp, true)
        }),
{
    lemma_lit_link();
    lemma_authority_chars(pw, server, port);
    let auth = hy2_authority(pw, server, port);
    let d = decimal(port as nat);
    let hp = server + ":"@ + d;
    assert(auth =~= pct_encode(pw) + seq!['@'] + hp);
    lemma_last_index_at(pct_encode(pw), '@', hp);
    assert(auth.subrange(pct_encode(pw).len() + 1int, auth.len() as int) =~= hp);
    lemma_class_weaken(d, |c: char| c != ':' && c != '-' && c != ',' && !is_port_stop(c, true), |c: char| c != ':');
    assert(hp =~= server + seq![':'] + d);
    lemma_last_index_at(server, ':', d);
    assert(hp.subrange(server.len() + 1int, hp.len() as int) =~= d);
    lemma_class_weaken(d, |c: char| c != ':' && c != '-' && c != ',' && !is_port_stop(c, true), |c: char| !is_port_stop(c, true));
    lemma_stop_at_first(d, Seq::empty(), true);
    assert(d + Seq::<char>::empty() =~= d);
    assert(d.subrange(0, d.len() as int) =~= d);
    if d.contains('-') || d.contains(',') {
        let k = choose|k: int| 0 <= k < d.len() && (d[k] == '-' || d[k] == ',');
        assert(d[k] != ':' && d[k] != '-' && d[k] != ',' && !is_port_stop(d[k], true));
    }
}

proof fn lemma_link_eq(server: Seq<char>, port: u16, name: Seq<char>, h: Hysteria2View)
    requires
        all_in(server, |c: char| is_host_char(c)),
    ensures
        canonical_hysteria2(server, port, name, h) == "hysteria2"@ + "://"@ + (hy2_authority(
            h.password,
            server,
            port,
        ) + hy2_tail(server, name, h)),
{
    lemma_lit_link();
    lemma_host_form_plain(server);
    assert(canonical_hysteria2(server, port, name, h) =~= "hysteria2"@ + "://"@ + (hy2_authority(
        h.password,
        server,
        port,
    ) + hy2_tail(server, name, h)));
}

proof fn lemma_lit_scheme()
    ensures
        "hysteria2"@.len() == 9,
        "://"@.len() == 3,
        all_in("hysteria2"@, |c: char| c != ':'),
{
    reveal_strlit("hysteria2");
    reveal_strlit("://");
}

proof fn lemma_scheme_find(x: Seq<char>)
    ensures
        find("hysteria2"@ + "://"@ + x, "://"@) == Some(9int),
        ("hysteria2"@ + "://"@ + x).subrange(12int, ("hysteria2"@ + "://"@ + x).len() as int) == x,
{
    lemma_lit_scheme();
    lemma_find_scheme("hysteria2"@, x);
    assert(("hysteria2"@ + "://"@ + x).subrange(12int, ("hysteria2"@ + "://"@ + x).len() as int) =~= x);
}

proof fn lemma_link_find(server: Seq<char>, port: u16, name: Seq<char>, h: Hysteria2View)
    requires
        all_in(server, |c: char| is_host_char(c)),
    ensures
        find(canonical_hysteria2(server, port, name, h), "://"@) == Some(9int),
        canonical_hysteria2(server, port, name, h).subrange(12int, canonical_hysteria2(server, port, name, h).len() as int)
            == hy2_authority(h.password, server, port) + hy2_tail(server, name, h),
{
    lemma_link_eq(server, port, name, h);
    lemma_scheme_find(hy2_authority(h.password, server, port) + hy2_tail(server, name, h));
}

proof fn lemma_link_stop(server: Seq<char>, port: u16, name: Seq<char>, h: Hysteria2View)
    requires
        hy2_round_trip_ok(server, name, h),
    ensures
        stop_at(hy2_authority(h.password, server, port) + hy2_tail(server, name, h), true)
            == hy2_authority(h.password, server, port).len(),
{
    lemma_authority_chars(h.password, server, port);
    lemma_tail_chars(server, name, h);
    lemma_stop_at_first(hy2_authority(h.password, server, port), hy2_tail(server, name, h), true);
}

#[verifier::spinoff_prover]
proof fn lemma_link_authority(server: Seq<char>, port: u16, name: Seq<char>, h: Hysteria2View)
    requires
        hy2_round_trip_ok(server, name, h),
    ensures
        crate::parser::hysteria2::authority_of(canonical_hysteria2(server, port, name, h))
            == hy2_authority(h.password, server, port),
{
    lemma_link_find(server, port, name, h);
    lemma_link_stop(server, port, name, h);
    lemma_lit_link();
    let auth = hy2_authority(h.password, server, port);
    let tail = hy2_tail(server, name, h);
    assert((auth + tail).subrange(0, auth.len() as int) =~= auth);
}

proof fn lemma_link_one_port(server: Seq<char>, port: u16, name: Seq<char>, h: Hysteria2View)
    requires
        hy2_round_trip_ok(server, name, h),
    ensures
        !multi_port_in_port_field(canonical_hysteria2(server, port, name, h)),
{
    lemma_link_authority(server, port, name, h);
    lemma_port_field(h.password, server, port);
}

/// The node a canonical hysteria2 link describes, as the parser reads it.
pub open spec fn hy2_node(server: Seq<char>, port: u16, name: Seq<char>, h: Hysteria2View) -> NodeView {
    NodeView {
        id: Seq::empty(),
        name,
        server,
        port,
        last_ping_ms: None,
        favorite: false,
        total_up: 0,
        total_down: 0,
        raw: canonical_hysteria2(server, port, name, h),
        kind: KindView::Hysteria2(h),
    }
}

proof fn lemma_pct_encode_nonempty(s: Seq<char>)
    requires
        s.len() > 0,
    ensures
        pct_encode(s).len() > 0,
{
    lemma_decode_undoes_encode(s);
    if pct_encode(s).len() == 0 {
        assert(pct_encode(s) =~= Seq::<char>::empty());
        assert(encode_utf8(Seq::<char>::empty()) =~= Seq::<u8>::empty());
        assert(percent_decoded_bytes(Seq::<u8>::empty()) =~= Seq::<u8>::empty());
        vstd::utf8::encode_utf8_valid_utf8(Seq::<char>::empty());
        vstd::utf8::encode_utf8_decode_utf8(Seq::<char>::empty());
        assert(percent_decoded_strict(Seq::<char>::empty()) == Some(Seq::<char>::empty()));
    }
}

proof fn lemma_obfs_outcome(obfs: Option<Seq<char>>, p: Hy2Params)
    requires
        p.obfs_type == (match obfs {
            Some(_) => Some("salamander"@),
            None => None,
        }),
        p.obfs_password == obfs,
    ensures
        hy2_obfs(p) == Ok::<Option<Seq<char>>, ErrorView>(obfs),
{
    reveal_strlit("none");
    reveal_strlit("salamander");
    assert("salamander"@ != "none"@) by {
        assert("salamander"@.len() != "none"@.len());
    }
}

/// Reading back a canonical hysteria2 link gives the node it was built
/// from: the server, port and name, and every setting of the node
/// (password, SNI, `insecure`, ALPN ids, obfuscation). The premise on
/// `url_parse` says what the `url` crate makes of the link: the encoded
/// password as user name, the server as host, the port, the query as
/// written and the encoded name as fragment.
pub proof fn lemma_hysteria2_round_trip(
    server: Seq<char>,
    port: u16,
    name: Seq<char>,
    h: Hysteria2View,
    u: UrlView,
)
    requires
        hy2_round_trip_ok(server, name, h),
        url_parse(canonical_hysteria2(server, port, name, h)) == Ok::<UrlView, Seq<char>>(u),
        u.username == pct_encode(h.password),
        u.host == Some(server),
        u.port == Some(port),
        u.query == hy2_query(server, h),
        u.fragment == Some(pct_encode(name)),
    ensures
        hy2_spec(canonical_hysteria2(server, port, name, h)) == Ok::<NodeView, ErrorView>(
            hy2_node(server, port, name, h),
        ),
{
    let link = canonical_hysteria2(server, port, name, h);
    lemma_link_trim(server, port, name, h);
    lemma_link_scheme(server, port, name, h);
    lemma_link_one_port(server, port, name, h);
    lemma_pct_encode_nonempty(h.password);
    lemma_decode_undoes_encode(h.password);
    lemma_decode_undoes_encode(name);
    assert(is_host_char(server[0]));
    assert(crate::parser::hysteria2::debracket(server) == server);
    lemma_hy2_pairs(server, h, u);
    lemma_hy2_params(server, h);
    let p = hy2_expected_params(server, h);
    lemma_obfs_outcome(h.obfs, p);
    assert(crate::parser::vless::remark_name(u.fragment, server, port) == name);
    let sni = if p.sni.len() == 0 && !is_ip_address(server) {
        server
    } else {
        p.sni
    };
    assert(sni == h.sni);
    assert(crate::parser::hysteria2::hy2_from_url(link, u) == Ok::<NodeView, ErrorView>(
        hy2_node(server, port, name, h),
    ));
}

/// ALPN ids without `&`, joined by `,`, hold no `&`.
pub proof fn lemma_all_in_join_pub(alpn: Seq<Seq<char>>, sep: Seq<char>)
    requires
        forall|k: int| 0 <= k < alpn.len() ==> all_in(#[trigger] alpn[k], |c: char| c != '&'),
        all_in(sep, |c: char| c != '&'),
    ensures
        all_in(join(alpn, sep), |c: char| c != '&'),
{
    lemma_all_in_join(alpn, sep, |c: char| c != '&');
}

} // verus!
