//! The wire-protocol codec: structured requests decoded from raw bytes, and
//! structured responses encoded back to bytes.

use vstd::prelude::*;

use crate::bytes::{
    all_digits, bytes_eq, crlf2_at, dec_str, dec_val, find2_from, find_blank_line, find_crlf2_from,
    find_pair, lower_bytes, parse_dec, render_dec, split1, split_crlf, split_lines, split_on,
    to_ascii_lower, to_ascii_upper, upper_bytes, vecs_view, CR, DOT, LF, SLASH, SP,
};
use crate::error::{ParseErrorView, RequestParseError};
use crate::method::HttpMethod;
use vstd::string::StringSliceAdditionalSpecFns;

verus! {

/// A protocol version, the `major.minor` pair after the scheme.
#[derive(Debug, Eq, PartialEq, Copy, Clone, Structural)]
pub struct HttpVersion {
    pub major: u16,
    pub minor: u16,
}

// ---------- header mappings ----------
//
// Header mappings are association lists with unique keys; insertion keeps the
// position of the first insertion of a key, and the last inserted value wins.

/// The views of a vector of byte-string pairs.
pub open spec fn pairs_view(v: Seq<(Vec<u8>, Vec<u8>)>) -> Seq<(Seq<u8>, Seq<u8>)> {
    v.map_values(|p: (Vec<u8>, Vec<u8>)| (p.0@, p.1@))
}

/// Index of the first entry with key `k`, or -1.
pub open spec fn find_key(hs: Seq<(Seq<u8>, Seq<u8>)>, k: Seq<u8>) -> int
    decreases hs.len(),
{
    if hs.len() == 0 {
        -1
    } else if hs[0].0 == k {
        0
    } else {
        let r = find_key(hs.drop_first(), k);
        if r < 0 {
            -1
        } else {
            r + 1
        }
    }
}

pub proof fn lemma_find_key(hs: Seq<(Seq<u8>, Seq<u8>)>, k: Seq<u8>)
    ensures
        -1 <= find_key(hs, k) < hs.len(),
        find_key(hs, k) >= 0 ==> hs[find_key(hs, k)].0 == k,
        find_key(hs, k) >= 0 ==> forall|j: int| 0 <= j < find_key(hs, k) ==> (#[trigger] hs[j]).0
            != k,
        find_key(hs, k) < 0 ==> forall|j: int| 0 <= j < hs.len() ==> (#[trigger] hs[j]).0 != k,
    decreases hs.len(),
{
    if hs.len() > 0 && hs[0].0 != k {
        lemma_find_key(hs.drop_first(), k);
        assert forall|j: int| 1 <= j < hs.len() implies (#[trigger] hs[j]).0 == hs.drop_first()[j
            - 1].0 by {}
    }
}

/// The value mapped to `k`, if any.
pub open spec fn lookup_header(hs: Seq<(Seq<u8>, Seq<u8>)>, k: Seq<u8>) -> Option<Seq<u8>> {
    let i = find_key(hs, k);
    if i < 0 {
        None
    } else {
        Some(hs[i].1)
    }
}

/// Map `k` to `v`: the last value for a key wins, and the key keeps the
/// position of its first insertion.
pub open spec fn upsert(hs: Seq<(Seq<u8>, Seq<u8>)>, k: Seq<u8>, v: Seq<u8>) -> Seq<
    (Seq<u8>, Seq<u8>),
> {
    let i = find_key(hs, k);
    if i < 0 {
        hs.push((k, v))
    } else {
        hs.update(i, (k, v))
    }
}

/// How a push moves the first match: an existing first match is kept, and a
/// key found nowhere before is found at the appended entry, if anywhere.
pub proof fn lemma_find_key_push(hs: Seq<(Seq<u8>, Seq<u8>)>, e: (Seq<u8>, Seq<u8>), k: Seq<u8>)
    ensures
        find_key(hs.push(e), k) == (if find_key(hs, k) >= 0 {
            find_key(hs, k)
        } else if e.0 == k {
            hs.len() as int
        } else {
            -1int
        }),
    decreases hs.len(),
{
    let p = hs.push(e);
    assert(p.len() == hs.len() + 1);
    if hs.len() == 0 {
        assert(p[0] == e);
        assert(p.drop_first() =~= Seq::<(Seq<u8>, Seq<u8>)>::empty());
        if e.0 == k {
            assert(find_key(p, k) == 0);
        } else {
            assert(find_key(p.drop_first(), k) == -1);
            assert(find_key(p, k) == -1);
        }
        assert(find_key(hs, k) == -1);
    } else {
        assert(p[0] == hs[0]);
        assert(p.drop_first() =~= hs.drop_first().push(e));
        lemma_find_key_push(hs.drop_first(), e, k);
        if hs[0].0 == k {
            assert(find_key(p, k) == 0);
            assert(find_key(hs, k) == 0);
        } else {
            assert(find_key(p, k) == (if find_key(p.drop_first(), k) < 0 {
                -1int
            } else {
                find_key(p.drop_first(), k) + 1
            }));
            assert(find_key(hs, k) == (if find_key(hs.drop_first(), k) < 0 {
                -1int
            } else {
                find_key(hs.drop_first(), k) + 1
            }));
        }
    }
}

/// The first match is a function of the keys alone.
pub proof fn lemma_find_key_keys(h1: Seq<(Seq<u8>, Seq<u8>)>, h2: Seq<(Seq<u8>, Seq<u8>)>, k: Seq<u8>)
    requires
        h1.len() == h2.len(),
        forall|j: int| 0 <= j < h1.len() ==> (#[trigger] h1[j]).0 == (#[trigger] h2[j]).0,
    ensures
        find_key(h1, k) == find_key(h2, k),
    decreases h1.len(),
{
    if h1.len() > 0 {
        assert(h1[0].0 == h2[0].0);
        lemma_find_key_keys(h1.drop_first(), h2.drop_first(), k);
    }
}

/// After mapping `k` to `v`, `k` looks up to `v`.
pub proof fn lemma_lookup_upsert_same(hs: Seq<(Seq<u8>, Seq<u8>)>, k: Seq<u8>, v: Seq<u8>)
    ensures
        lookup_header(upsert(hs, k, v), k) == Some(v),
{
    lemma_find_key(hs, k);
    let i = find_key(hs, k);
    if i < 0 {
        lemma_find_key_push(hs, (k, v), k);
        assert(hs.push((k, v))[hs.len() as int] == (k, v));
    } else {
        let u = hs.update(i, (k, v));
        assert(forall|j: int| 0 <= j < hs.len() ==> (#[trigger] u[j]).0 == (#[trigger] hs[j]).0);
        lemma_find_key_keys(u, hs, k);
    }
}

/// Mapping one key leaves every other key's lookup unchanged.
pub proof fn lemma_lookup_upsert_other(
    hs: Seq<(Seq<u8>, Seq<u8>)>,
    k: Seq<u8>,
    v: Seq<u8>,
    k2: Seq<u8>,
)
    requires
        k2 != k,
    ensures
        lookup_header(upsert(hs, k, v), k2) == lookup_header(hs, k2),
{
    lemma_find_key(hs, k);
    lemma_find_key(hs, k2);
    let i = find_key(hs, k);
    if i < 0 {
        lemma_find_key_push(hs, (k, v), k2);
        let j = find_key(hs, k2);
        if j >= 0 {
            assert(hs.push((k, v))[j] == hs[j]);
        }
    } else {
        let u = hs.update(i, (k, v));
        assert(forall|j: int| 0 <= j < hs.len() ==> (#[trigger] u[j]).0 == (#[trigger] hs[j]).0);
        lemma_find_key_keys(u, hs, k2);
        let j = find_key(hs, k2);
        if j >= 0 {
            lemma_find_key(u, k2);
            assert(u[j].0 == k2);
            assert(j != i);
            assert(u[j] == hs[j]);
        }
    }
}

/// The framing half of the encode/decode round trip that the body fillers
/// guarantee: after a body-filling constructor runs, the `Content-Length`
/// header reads exactly the byte length of the body it wrote, and reading
/// that decimal text back gives the length itself.
pub proof fn lemma_content_length_roundtrip(
    hs: Seq<(Seq<u8>, Seq<u8>)>,
    body: Seq<u8>,
    ct: Seq<u8>,
)
    ensures
        ({
            let after = upsert(
                upsert(hs, content_length_name(), dec_str(body.len())),
                content_type_name(),
                ct,
            );
            &&& lookup_header(after, content_length_name()) == Some(dec_str(body.len()))
            &&& dec_val(dec_str(body.len())) == body.len()
        }),
{
    assert(content_length_name().len() != content_type_name().len());
    lemma_lookup_upsert_same(hs, content_length_name(), dec_str(body.len()));
    lemma_lookup_upsert_other(
        upsert(hs, content_length_name(), dec_str(body.len())),
        content_type_name(),
        ct,
        content_length_name(),
    );
    crate::bytes::lemma_dec_roundtrip(body.len());
}

/// The status half of the encode/decode round trip: reading the framing of
/// the encoded bytes back — the line before the first line separator, split
/// on single spaces — reproduces the status, whenever the protocol scheme is
/// free of the delimiter bytes (as every real scheme is).
pub proof fn lemma_encode_status_roundtrip(m: ResponseModel)
    requires
        forall|i: int|
            0 <= i < m.protocol.len() ==> (#[trigger] m.protocol[i]) != CR && m.protocol[i] != SP,
    ensures
        ({
            let e = spec_encode(m);
            let line = e.subrange(0, find2_from(e, CR, LF, 0));
            &&& split1(line, SP).len() == 2
            &&& split1(line, SP)[1] == dec_str(m.status as nat)
            &&& dec_val(split1(line, SP)[1]) == m.status
        }),
{
    let e = spec_encode(m);
    let up = upper_bytes(m.protocol);
    let maj = dec_str(m.version.major as nat);
    let min = dec_str(m.version.minor as nat);
    let st = dec_str(m.status as nat);
    crate::bytes::lemma_dec_roundtrip(m.version.major as nat);
    crate::bytes::lemma_dec_roundtrip(m.version.minor as nat);
    crate::bytes::lemma_dec_roundtrip(m.status as nat);
    let a = up + seq![SLASH] + maj + seq![46u8] + min;
    let line = a + seq![SP] + st;
    assert(status_line(m.protocol, m.version, m.status) =~= line + crlf());
    assert(e =~= line + crlf() + (header_block(m.headers) + crlf() + (if m.body.len() > 0 {
        m.body + crlf() + crlf()
    } else {
        Seq::<u8>::empty()
    })));
    assert(up.len() == m.protocol.len());
    assert forall|j: int| 0 <= j < a.len() implies (#[trigger] a[j]) != CR && a[j] != SP by {
        if j < up.len() {
            assert(up[j] == crate::bytes::to_upper_byte(m.protocol[j]));
        }
    }
    assert forall|j: int| 0 <= j < line.len() implies (#[trigger] line[j]) != CR by {
        if j >= a.len() + 1 {
            assert(line[j] == st[j - (a.len() + 1)]);
            assert(crate::bytes::is_digit(st[j - (a.len() + 1)]));
        }
    }
    // the first line separator ends the status line
    assert forall|j: int| 0 <= j < line.len() implies !crate::bytes::pat2_at(e, CR, LF, j) by {
        assert(e[j] == line[j]);
    }
    assert(crate::bytes::pat2_at(e, CR, LF, line.len() as int));
    crate::bytes::lemma_find2_is(e, CR, LF, 0, line.len() as int);
    assert(e.subrange(0, line.len() as int) =~= line);
    // the line splits into the scheme-and-version token and the status token
    assert forall|j: int| 0 <= j < a.len() implies line[j] != SP by {
        assert(line[j] == a[j]);
    }
    assert(line[a.len() as int] == SP);
    crate::bytes::lemma_find1_is(line, SP, 0, a.len() as int);
    assert(line.subrange(0, a.len() as int) =~= a);
    let rest = line.subrange(a.len() as int + 1, line.len() as int);
    assert(rest =~= st);
    assert forall|j: int| 0 <= j < st.len() implies st[j] != SP by {
        assert(crate::bytes::is_digit(st[j]));
    }
    crate::bytes::lemma_find1_is(st, SP, 0, st.len() as int);
    assert(split1(st, SP) =~= seq![st]);
    assert(split1(line, SP) =~= seq![a] + split1(rest, SP));
    assert(split1(line, SP) =~= seq![a, st]);
}

/// Index of the last entry with key `k`, or -1: for query parameters a
/// duplicate key resolves to its last occurrence.
pub open spec fn find_key_last(hs: Seq<(Seq<u8>, Seq<u8>)>, k: Seq<u8>) -> int
    decreases hs.len(),
{
    if hs.len() == 0 {
        -1
    } else if hs.last().0 == k {
        hs.len() - 1
    } else {
        find_key_last(hs.drop_last(), k)
    }
}

/// The value the last entry maps `k` to, if any.
pub open spec fn lookup_query(hs: Seq<(Seq<u8>, Seq<u8>)>, k: Seq<u8>) -> Option<Seq<u8>> {
    let i = find_key_last(hs, k);
    if i < 0 {
        None
    } else {
        Some(hs[i].1)
    }
}

proof fn lemma_find_key_last_at(hs: Seq<(Seq<u8>, Seq<u8>)>, k: Seq<u8>, j: int)
    requires
        0 <= j < hs.len(),
        hs[j].0 == k,
        forall|l: int| j < l < hs.len() ==> (#[trigger] hs[l]).0 != k,
    ensures
        find_key_last(hs, k) == j,
    decreases hs.len(),
{
    if j < hs.len() - 1 {
        assert(hs.last().0 != k);
        assert(hs.drop_last()[j] == hs[j]);
        lemma_find_key_last_at(hs.drop_last(), k, j);
    }
}

proof fn lemma_find_key_last_none(hs: Seq<(Seq<u8>, Seq<u8>)>, k: Seq<u8>)
    requires
        forall|l: int| 0 <= l < hs.len() ==> (#[trigger] hs[l]).0 != k,
    ensures
        find_key_last(hs, k) == -1,
    decreases hs.len(),
{
    if hs.len() > 0 {
        lemma_find_key_last_none(hs.drop_last(), k);
    }
}

/// Exec lookup of the last entry with a key.
fn assoc_lookup_last<'a>(hs: &'a Vec<(Vec<u8>, Vec<u8>)>, k: &[u8]) -> (r: Option<&'a Vec<u8>>)
    ensures
        match r {
            Some(v) => lookup_query(pairs_view(hs@), k@) == Some(v@),
            None => lookup_query(pairs_view(hs@), k@) is None,
        },
{
    let ghost m = pairs_view(hs@);
    let mut i: usize = hs.len();
    while i > 0
        invariant
            i <= hs@.len(),
            m == pairs_view(hs@),
            m.len() == hs@.len(),
            forall|l: int| i <= l < m.len() ==> (#[trigger] m[l]).0 != k@,
        decreases i,
    {
        if bytes_eq(hs[i - 1].0.as_slice(), k) {
            proof {
                lemma_find_key_last_at(m, k@, i - 1);
            }
            return Some(&hs[i - 1].1);
        }
        proof {
            assert(m[i - 1].0 != k@);
        }
        i -= 1;
    }
    proof {
        lemma_find_key_last_none(m, k@);
    }
    None
}

/// A byte string free of a given byte.
pub open spec fn byte_free(s: Seq<u8>, b: u8) -> bool {
    forall|i: int| 0 <= i < s.len() ==> s[i] != b
}

/// Header pairs that keep the line framing intact: names and values free of
/// the carriage-return byte.
pub open spec fn wf_header_pairs(hs: Seq<(Seq<u8>, Seq<u8>)>) -> bool {
    forall|i: int|
        0 <= i < hs.len() ==> byte_free((#[trigger] hs[i]).0, CR) && byte_free(hs[i].1, CR)
}

/// Where the carriage-return byte stands inside an encoded header block: only
/// as each line's terminator, so every CR is followed by LF and then — unless
/// the block ends right there — by a byte that is not CR; a non-empty block
/// starts with no CR and ends in CR LF.
proof fn lemma_header_block_crs(hs: Seq<(Seq<u8>, Seq<u8>)>)
    requires
        wf_header_pairs(hs),
    ensures
        ({
            let hb = header_block(hs);
            &&& hb.len() > 0 ==> hb.len() >= 4 && hb[0] != CR && hb[hb.len() - 2] == CR
                && hb[hb.len() - 1] == LF
            &&& forall|j: int|
                0 <= j < hb.len() && (#[trigger] hb[j]) == CR ==> j + 2 <= hb.len() && hb[j + 1]
                    == LF && (j + 2 == hb.len() || hb[j + 2] != CR)
        }),
    decreases hs.len(),
{
    if hs.len() > 0 {
        assert(forall|i: int|
            0 <= i < hs.len() - 1 ==> #[trigger] hs.drop_last()[i] == hs[i]);
        lemma_header_block_crs(hs.drop_last());
        let hb0 = header_block(hs.drop_last());
        let name = hs.last().0;
        let value = hs.last().1;
        let line = header_line(hs.last());
        let hb = header_block(hs);
        assert(hb == hb0 + line);
        assert(line =~= name + seq![58u8, 32u8] + value + crlf());
        assert(line.len() == name.len() + value.len() + 4);
        assert(byte_free(name, CR) && byte_free(value, CR));
        assert forall|j: int| 0 <= j < line.len() && (#[trigger] line[j]) == CR implies j
            == line.len() - 2 by {
            if j < name.len() {
                assert(line[j] == name[j]);
            } else if j < name.len() + 2 {
            } else if j < name.len() + 2 + value.len() {
                assert(line[j] == value[j - name.len() - 2]);
            }
        }
        assert(line[line.len() - 2] == CR && line[line.len() - 1] == LF);
        assert(line[0] != CR) by {
            if name.len() > 0 {
                assert(line[0] == name[0]);
            } else {
                assert(line[0] == 58);
            }
        }
        assert(hb.len() >= 4 && hb[0] != CR && hb[hb.len() - 2] == CR && hb[hb.len() - 1] == LF)
            by {
            if hb0.len() > 0 {
                assert(hb[0] == hb0[0]);
            } else {
                assert(hb[0] == line[0]);
            }
            assert(hb[hb.len() - 2] == line[line.len() - 2]);
            assert(hb[hb.len() - 1] == line[line.len() - 1]);
        }
        assert forall|j: int|
            0 <= j < hb.len() && (#[trigger] hb[j]) == CR implies j + 2 <= hb.len() && hb[j + 1]
            == LF && (j + 2 == hb.len() || hb[j + 2] != CR) by {
            if j < hb0.len() {
                assert(hb[j] == hb0[j]);
                assert(hb0[j + 1] == LF && (j + 2 == hb0.len() || hb0[j + 2] != CR));
                assert(hb[j + 1] == hb0[j + 1]);
                if j + 2 == hb0.len() {
                    assert(hb[j + 2] == line[0]);
                } else {
                    assert(hb[j + 2] == hb0[j + 2]);
                }
            } else {
                assert(hb[j] == line[j - hb0.len()]);
                assert(j - hb0.len() == line.len() - 2);
                assert(hb[j + 1] == line[line.len() - 1]);
                assert(j + 2 == hb.len());
            }
        }
    }
}

/// The boundary half of the encode/decode round trip: the first blank-line
/// delimiter of the encoded bytes stands exactly at the end of the head (the
/// status line and the header block), so a non-empty body is recovered
/// unchanged as the bytes that follow it, whenever the protocol scheme and the
/// header names and values are free of the carriage-return byte (as every
/// real scheme and header is).
pub proof fn lemma_encode_head_boundary(m: ResponseModel)
    requires
        byte_free(m.protocol, CR),
        wf_header_pairs(m.headers),
    ensures
        ({
            let e = spec_encode(m);
            let h = status_line(m.protocol, m.version, m.status).len() + header_block(
                m.headers,
            ).len() - 2;
            &&& find_crlf2_from(e, 0) == h
            &&& m.body.len() > 0 ==> e.subrange(h + 4, h + 4 + m.body.len()) == m.body
            &&& m.body.len() == 0 ==> e.len() == h + 4
        }),
{
    let e = spec_encode(m);
    let sl = status_line(m.protocol, m.version, m.status);
    let hb = header_block(m.headers);
    let up = upper_bytes(m.protocol);
    let maj = dec_str(m.version.major as nat);
    let min = dec_str(m.version.minor as nat);
    let st = dec_str(m.status as nat);
    crate::bytes::lemma_dec_roundtrip(m.version.major as nat);
    crate::bytes::lemma_dec_roundtrip(m.version.minor as nat);
    crate::bytes::lemma_dec_roundtrip(m.status as nat);
    let line = up + seq![SLASH] + maj + seq![46u8] + min + seq![SP] + st;
    assert(sl =~= line + crlf());
    assert(up.len() == m.protocol.len());
    assert forall|j: int| 0 <= j < line.len() implies (#[trigger] line[j]) != CR by {
        if j < up.len() {
            assert(up[j] == crate::bytes::to_upper_byte(m.protocol[j]));
            assert(m.protocol[j] != CR);
        }
    }
    lemma_header_block_crs(m.headers);
    let tail: Seq<u8> = if m.body.len() > 0 {
        m.body + crlf() + crlf()
    } else {
        Seq::<u8>::empty()
    };
    assert(e =~= sl + hb + crlf() + tail);
    let h = sl.len() + hb.len() - 2;
    assert forall|j: int| 0 <= j < h implies !crlf2_at(e, j) by {
        assert(e[j] == (sl + hb + crlf() + tail)[j]);
        if j < line.len() {
            assert(e[j] == line[j]);
        } else if j == sl.len() - 2 {
            // the status line's own terminator: the head goes on with a
            // header byte that is not CR
            assert(hb.len() > 0);
            assert(e[j + 2] == hb[0]);
        } else if j == sl.len() - 1 {
            assert(e[j] == sl[j]);
            assert(sl[j] == LF);
        } else {
            let j2 = j - sl.len();
            assert(e[j] == hb[j2]);
            if hb[j2] == CR {
                assert(j2 + 2 <= hb.len() && (j2 + 2 == hb.len() || hb[j2 + 2] != CR));
                assert(j2 + 2 < hb.len());
                assert(e[j + 2] == hb[j2 + 2]);
            }
        }
    }
    assert(crlf2_at(e, h)) by {
        if hb.len() > 0 {
            assert(e[h] == hb[hb.len() - 2]);
            assert(e[h + 1] == hb[hb.len() - 1]);
            assert(e[h + 2] == crlf()[0]);
            assert(e[h + 3] == crlf()[1]);
        } else {
            assert(e[h] == sl[sl.len() - 2]);
            assert(e[h + 1] == sl[sl.len() - 1]);
            assert(e[h + 2] == crlf()[0]);
            assert(e[h + 3] == crlf()[1]);
        }
    }
    crate::bytes::lemma_find_crlf2_is(e, 0, h);
    if m.body.len() > 0 {
        assert(e.subrange(h + 4, h + 4 + m.body.len()) =~= m.body);
    }
}

/// The encode/decode round trip of the framing, in one statement: encode a
/// response whose framing bytes are clean (scheme free of the separator
/// bytes, header names and values free of CR — as every real message is) and
/// whose `Content-Length` header was stamped by a body filler; then reading
/// the framing back — the second space-token of the first line, the
/// `Content-Length` header, and that many bytes after the first blank line —
/// reproduces the status, the exact body byte length, and the body bytes.
pub proof fn lemma_encode_frame_roundtrip(m: ResponseModel)
    requires
        byte_free(m.protocol, CR),
        byte_free(m.protocol, SP),
        wf_header_pairs(m.headers),
        lookup_header(m.headers, content_length_name()) == Some(dec_str(m.body.len())),
    ensures
        ({
            let e = spec_encode(m);
            let line = e.subrange(0, find2_from(e, CR, LF, 0));
            &&& split1(line, SP).len() == 2
            &&& dec_val(split1(line, SP)[1]) == m.status
            &&& dec_val(dec_str(m.body.len())) == m.body.len()
            &&& m.body.len() > 0 ==> e.subrange(
                find_crlf2_from(e, 0) + 4,
                find_crlf2_from(e, 0) + 4 + m.body.len(),
            ) == m.body
        }),
{
    assert(forall|i: int|
        0 <= i < m.protocol.len() ==> (#[trigger] m.protocol[i]) != CR && m.protocol[i] != SP);
    lemma_encode_status_roundtrip(m);
    lemma_encode_head_boundary(m);
    crate::bytes::lemma_dec_roundtrip(m.body.len());
}

/// Two facts of every successful decode, for any input: the mandatory `Host`
/// header is present in the decoded mapping (its absence is a Host error),
/// and the body was read from inside the buffer — a `Content-Length` larger
/// than the bytes available after the header boundary is a parse error, never
/// an out-of-bounds read.
pub proof fn lemma_decode_host_and_body_bounds(bytes: Seq<u8>)
    ensures
        spec_decode(bytes) matches Ok(m) ==> lookup_header(m.headers, host_key()) is Some,
        spec_decode(bytes) matches Ok(m) ==> (m.body.len() == 0 || find_crlf2_from(bytes, 0) + 4
            + m.body.len() <= bytes.len()),
{
    crate::bytes::lemma_find_crlf2_range(bytes, 0);
}

/// Exec lookup in an association list.
pub fn assoc_lookup<'a>(hs: &'a Vec<(Vec<u8>, Vec<u8>)>, k: &[u8]) -> (r: Option<&'a Vec<u8>>)
    ensures
        match r {
            Some(v) => lookup_header(pairs_view(hs@), k@) == Some(v@),
            None => lookup_header(pairs_view(hs@), k@) is None,
        },
{
    let ghost m = pairs_view(hs@);
    proof {
        lemma_find_key(m, k@);
    }
    let mut i: usize = 0;
    while i < hs.len()
        invariant
            i <= hs@.len(),
            m == pairs_view(hs@),
            m.len() == hs@.len(),
            forall|j: int| 0 <= j < i ==> (#[trigger] m[j]).0 != k@,
            -1 <= find_key(m, k@) < m.len(),
            find_key(m, k@) >= 0 ==> m[find_key(m, k@)].0 == k@,
            find_key(m, k@) >= 0 ==> forall|j: int| 0 <= j < find_key(m, k@) ==> (#[trigger] m[j]).0
                != k@,
            find_key(m, k@) < 0 ==> forall|j: int| 0 <= j < m.len() ==> (#[trigger] m[j]).0 != k@,
        decreases hs@.len() - i,
    {
        if bytes_eq(hs[i].0.as_slice(), k) {
            proof {
                assert(m[i as int].0 == k@);
                assert(find_key(m, k@) == i);
            }
            return Some(&hs[i].1);
        }
        proof {
            assert(m[i as int].0 != k@);
        }
        i += 1;
    }
    None
}

/// Exec upsert into an association list.
pub fn assoc_upsert(hs: &mut Vec<(Vec<u8>, Vec<u8>)>, k: Vec<u8>, v: Vec<u8>)
    ensures
        pairs_view(final(hs)@) == upsert(pairs_view(old(hs)@), k@, v@),
{
    let ghost m = pairs_view(hs@);
    proof {
        lemma_find_key(m, k@);
    }
    let mut i: usize = 0;
    while i < hs.len()
        invariant
            i <= hs@.len(),
            hs@ == old(hs)@,
            m == pairs_view(hs@),
            m.len() == hs@.len(),
            forall|j: int| 0 <= j < i ==> (#[trigger] m[j]).0 != k@,
            -1 <= find_key(m, k@) < m.len(),
            find_key(m, k@) >= 0 ==> m[find_key(m, k@)].0 == k@,
            find_key(m, k@) >= 0 ==> forall|j: int| 0 <= j < find_key(m, k@) ==> (#[trigger] m[j]).0
                != k@,
            find_key(m, k@) < 0 ==> forall|j: int| 0 <= j < m.len() ==> (#[trigger] m[j]).0 != k@,
        decreases hs@.len() - i,
    {
        if bytes_eq(hs[i].0.as_slice(), k.as_slice()) {
            proof {
                assert(m[i as int].0 == k@);
                assert(find_key(m, k@) == i);
            }
            let _ = hs.remove(i);
            hs.insert(i, (k, v));
            proof {
                assert(pairs_view(hs@) =~= m.update(i as int, (k@, v@)));
            }
            return ;
        }
        proof {
            assert(m[i as int].0 != k@);
        }
        i += 1;
    }
    hs.push((k, v));
    proof {
        assert(find_key(m, k@) < 0);
        assert(pairs_view(hs@) =~= m.push((k@, v@)));
    }
}

// ---------- Request ----------

/// The mathematical image of a decoded request.
pub struct RequestModel {
    pub method: HttpMethod,
    pub route: Seq<u8>,
    pub protocol: Seq<u8>,
    pub version: HttpVersion,
    pub host: Seq<u8>,
    pub headers: Seq<(Seq<u8>, Seq<u8>)>,
    pub query: Seq<(Seq<u8>, Seq<u8>)>,
    pub body: Seq<u8>,
}

/// A decoded request: immutable once constructed. Header keys are
/// ASCII-lowercased and unique (the last occurrence of a duplicate wins);
/// the route is the normalized path recovered from the resource locator.
#[derive(Debug)]
pub struct Request {
    pub peer: String,
    pub method: HttpMethod,
    pub route: Vec<u8>,
    pub protocol: Vec<u8>,
    pub version: HttpVersion,
    pub host: Vec<u8>,
    pub headers: Vec<(Vec<u8>, Vec<u8>)>,
    pub query: Vec<(Vec<u8>, Vec<u8>)>,
    pub body: Vec<u8>,
}

impl Request {
    pub open spec fn model(&self) -> RequestModel {
        RequestModel {
            method: self.method,
            route: self.route@,
            protocol: self.protocol@,
            version: self.version,
            host: self.host@,
            headers: pairs_view(self.headers@),
            query: pairs_view(self.query@),
            body: self.body@,
        }
    }

    /// The peer address this request arrived from.
    pub fn socket_addr(&self) -> (r: &String)
        ensures
            r == &self.peer,
    {
        &self.peer
    }

    pub fn method(&self) -> (r: HttpMethod)
        ensures
            r == self.method,
    {
        self.method
    }

    pub fn route(&self) -> (r: &Vec<u8>)
        ensures
            r@ == self.model().route,
    {
        &self.route
    }

    pub fn protocol(&self) -> (r: &Vec<u8>)
        ensures
            r@ == self.model().protocol,
    {
        &self.protocol
    }

    pub fn version(&self) -> (r: HttpVersion)
        ensures
            r == self.version,
    {
        self.version
    }

    pub fn host(&self) -> (r: &Vec<u8>)
        ensures
            r@ == self.model().host,
    {
        &self.host
    }

    /// Look a header up by its lowercased name.
    pub fn header(&self, name: &[u8]) -> (r: Option<&Vec<u8>>)
        ensures
            match r {
                Some(v) => lookup_header(self.model().headers, name@) == Some(v@),
                None => lookup_header(self.model().headers, name@) is None,
            },
    {
        assoc_lookup(&self.headers, name)
    }

    /// Look a query parameter up by its key: a duplicate key resolves to its
    /// last occurrence.
    pub fn query_param(&self, key: &[u8]) -> (r: Option<&Vec<u8>>)
        ensures
            match r {
                Some(v) => lookup_query(self.model().query, key@) == Some(v@),
                None => lookup_query(self.model().query, key@) is None,
            },
    {
        assoc_lookup_last(&self.query, key)
    }

    /// The body as text: exactly the valid-UTF-8 bodies decode, anything
    /// else is a body parse error.
    pub fn text(&self) -> (r: Result<&str, RequestParseError>)
        ensures
            r is Ok <==> vstd::utf8::valid_utf8(self.model().body),
            r matches Ok(s) ==> s.spec_bytes() == self.model().body,
            r matches Err(e) ==> e@ == ParseErrorView::Body,
    {
        match try_str_from_bytes(self.body.as_slice()) {
            Some(s) => Ok(s),
            None => Err(RequestParseError::Body),
        }
    }

    /// The raw body bytes.
    pub fn raw(&self) -> (r: &Vec<u8>)
        ensures
            r@ == self.model().body,
    {
        &self.body
    }
}

// ---------- trusted views of outside code ----------

/// Relies on std's `str::from_utf8`: it succeeds exactly on valid UTF-8 input
/// and hands the same bytes back, decoded.
#[verifier::external_body]
pub fn try_str_from_bytes(b: &[u8]) -> (r: Option<&str>)
    ensures
        r is Some <==> vstd::utf8::valid_utf8(b@),
        r matches Some(s) ==> s.spec_bytes() == b@,
{
    std::str::from_utf8(b).ok()
}

/// The scheme-and-authority separator `://`.
pub open spec fn scheme_sep() -> Seq<u8> {
    seq![58u8, 47u8, 47u8]
}

/// The fully-qualified resource locator text: scheme, `://`, host, target.
pub open spec fn locator_of(scheme: Seq<u8>, host: Seq<u8>, target: Seq<u8>) -> Seq<u8> {
    scheme + scheme_sep() + host + target
}

/// Assemble the locator text from its parts.
pub fn assemble_locator(scheme: &[u8], host: &[u8], target: &[u8]) -> (r: Vec<u8>)
    ensures
        r@ == locator_of(scheme@, host@, target@),
{
    let mut r: Vec<u8> = Vec::new();
    r.extend_from_slice(scheme);
    r.push(58);
    r.push(47);
    r.push(47);
    r.extend_from_slice(host);
    r.extend_from_slice(target);
    proof {
        assert(r@ =~= locator_of(scheme@, host@, target@));
    }
    r
}

/// What the `url` crate recovers from a resource-locator text: `None` when no
/// locator can be parsed from it (or it has no host), otherwise the
/// normalized path, the normalized host, and the decoded query-parameter
/// pairs. A function of its argument alone.
pub uninterp spec fn url_split(locator: Seq<u8>) -> Option<
    (Seq<u8>, Seq<u8>, Seq<(Seq<u8>, Seq<u8>)>),
>;

/// Relies on `url::Url::parse` and its `path`, `host_str` and `query_pairs`
/// accessors: parsing is deterministic in the locator text.
#[verifier::external_body]
pub fn url_split_target(locator: &[u8]) -> (r: Option<
    (Vec<u8>, Vec<u8>, Vec<(Vec<u8>, Vec<u8>)>),
>)
    ensures
        r is Some <==> url_split(locator@) is Some,
        r matches Some(t) ==> url_split(locator@) == Some((t.0@, t.1@, pairs_view(t.2@))),
{
    let s = std::str::from_utf8(locator).ok()?;
    let u = url::Url::parse(s).ok()?;
    let uh = u.host_str()?.as_bytes().to_vec();
    let query = u
        .query_pairs()
        .map(|(k, v)| (k.as_bytes().to_vec(), v.as_bytes().to_vec()))
        .collect();
    Some((u.path().as_bytes().to_vec(), uh, query))
}

// ---------- decoding ----------

/// The lowercased `host` header name.
pub open spec fn host_key() -> Seq<u8> {
    seq![104u8, 111u8, 115u8, 116u8]
}

/// Exec copy of the `host` key.
pub fn host_key_vec() -> (r: Vec<u8>)
    ensures
        r@ == host_key(),
{
    let mut v: Vec<u8> = Vec::new();
    v.push(104);
    v.push(111);
    v.push(115);
    v.push(116);
    proof {
        assert(v@ =~= host_key());
    }
    v
}

/// A version token is digits, optionally a dot and more digits, each side
/// within `u16` range.
pub open spec fn spec_parse_u16(p: Seq<u8>) -> Option<u16> {
    if p.len() > 0 && all_digits(p) && dec_val(p) <= u16::MAX {
        Some(dec_val(p) as u16)
    } else {
        None
    }
}

pub open spec fn spec_parse_version(s: Seq<u8>) -> Option<HttpVersion> {
    let parts = split1(s, DOT);
    if parts.len() == 1 {
        match spec_parse_u16(parts[0]) {
            Some(major) => Some(HttpVersion { major, minor: 0 }),
            None => None,
        }
    } else if parts.len() == 2 {
        match (spec_parse_u16(parts[0]), spec_parse_u16(parts[1])) {
            (Some(major), Some(minor)) => Some(HttpVersion { major, minor }),
            _ => None,
        }
    } else {
        None
    }
}

pub fn parse_version(v: &[u8]) -> (r: Option<HttpVersion>)
    ensures
        r == spec_parse_version(v@),
{
    let parts = split_on(v, DOT);
    proof {
        assert(vecs_view(parts@)[0] == parts@[0]@);
    }
    if parts.len() == 1 {
        match parse_dec(parts[0].as_slice(), 65535) {
            Some(n) => Some(HttpVersion { major: n as u16, minor: 0 }),
            None => None,
        }
    } else if parts.len() == 2 {
        proof {
            assert(vecs_view(parts@)[1] == parts@[1]@);
        }
        let major = match parse_dec(parts[0].as_slice(), 65535) {
            Some(n) => n as u16,
            None => {
                return None;
            },
        };
        let minor = match parse_dec(parts[1].as_slice(), 65535) {
            Some(n) => n as u16,
            None => {
                return None;
            },
        };
        Some(HttpVersion { major, minor })
    } else {
        None
    }
}

/// Fold the header lines into a mapping, lowercasing each name; a line
/// without a `: ` separator is a malformed-header error naming that line.
pub open spec fn spec_collect_headers(
    lines: Seq<Seq<u8>>,
    acc: Seq<(Seq<u8>, Seq<u8>)>,
) -> Result<Seq<(Seq<u8>, Seq<u8>)>, ParseErrorView>
    decreases lines.len(),
{
    if lines.len() == 0 {
        Ok(acc)
    } else {
        let line = lines[0];
        let p = find2_from(line, 58, SP, 0);
        if p >= line.len() {
            Err(ParseErrorView::Header(lower_bytes(line)))
        } else {
            spec_collect_headers(
                lines.drop_first(),
                upsert(acc, lower_bytes(line.subrange(0, p)), line.subrange(p + 2, line.len() as int)),
            )
        }
    }
}

/// What decoding a raw byte buffer yields: a request image, or exactly one
/// parse error naming the part of the message that failed.
pub open spec fn spec_decode(bytes: Seq<u8>) -> Result<RequestModel, ParseErrorView> {
    let head_len = find_crlf2_from(bytes, 0);
    let head = bytes.subrange(0, head_len);
    if !vstd::utf8::valid_utf8(head) {
        Err(ParseErrorView::MalformedRequest)
    } else {
        let lines = split_crlf(head);
        let tokens = split1(lines[0], SP);
        match HttpMethod::of_token(tokens[0]) {
            None => Err(ParseErrorView::Method),
            Some(method) => {
                if tokens.len() < 2 {
                    Err(ParseErrorView::Route)
                } else {
                    let target = tokens[1];
                    if tokens.len() < 3 {
                        Err(ParseErrorView::Protocol)
                    } else {
                        let vparts = split1(tokens[2], SLASH);
                        let scheme = lower_bytes(vparts[0]);
                        if vparts.len() < 2 {
                            Err(ParseErrorView::Protocol)
                        } else {
                            match spec_parse_version(vparts[1]) {
                                None => Err(ParseErrorView::Protocol),
                                Some(version) => spec_decode_tail(
                                    bytes,
                                    head_len,
                                    lines,
                                    method,
                                    target,
                                    scheme,
                                    version,
                                ),
                            }
                        }
                    }
                }
            },
        }
    }
}

/// The header, host, body, and locator steps of decoding.
pub open spec fn spec_decode_tail(
    bytes: Seq<u8>,
    head_len: int,
    lines: Seq<Seq<u8>>,
    method: HttpMethod,
    target: Seq<u8>,
    scheme: Seq<u8>,
    version: HttpVersion,
) -> Result<RequestModel, ParseErrorView> {
    match spec_collect_headers(lines.drop_first(), Seq::empty()) {
        Err(e) => Err(e),
        Ok(headers) => match lookup_header(headers, host_key()) {
            None => Err(ParseErrorView::Host),
            Some(raw_host) => {
                let body_step: Result<Seq<u8>, ParseErrorView> = if head_len == bytes.len() {
                    Ok(Seq::empty())
                } else {
                    match lookup_header(headers, content_length_key()) {
                        None => Ok(Seq::empty()),
                        Some(lv) => {
                            if !(lv.len() > 0 && all_digits(lv) && dec_val(lv) <= usize::MAX) {
                                Err(ParseErrorView::Header(content_length_key()))
                            } else if head_len + 4 + dec_val(lv) > bytes.len() {
                                Err(ParseErrorView::Body)
                            } else {
                                Ok(bytes.subrange(head_len + 4, head_len + 4 + dec_val(lv)))
                            }
                        },
                    }
                };
                match body_step {
                    Err(e) => Err(e),
                    Ok(body) => match url_split(locator_of(scheme, raw_host, target)) {
                        None => Err(ParseErrorView::Route),
                        Some((route, host, query)) => Ok(
                            RequestModel {
                                method,
                                route,
                                protocol: scheme,
                                version,
                                host,
                                headers,
                                query,
                                body,
                            },
                        ),
                    },
                }
            },
        },
    }
}

/// Copy a byte slice into a fresh vector.
pub fn copy_bytes(v: &[u8]) -> (r: Vec<u8>)
    ensures
        r@ == v@,
{
    vstd::slice::slice_to_vec(v)
}

impl Request {
    /// Decode a raw inbound buffer from the given peer into a request,
    /// producing exactly the parse error that `spec_decode` names when the
    /// buffer is malformed.
    #[verifier::loop_isolation(false)]
    pub fn from_bytes(peer: String, bytes: &[u8]) -> (r: Result<Request, RequestParseError>)
        ensures
            match r {
                Ok(req) => spec_decode(bytes@) == Ok::<RequestModel, ParseErrorView>(req.model())
                    && req.peer@ == peer@,
                Err(e) => spec_decode(bytes@) == Err::<RequestModel, ParseErrorView>(e@),
            },
    {
        let head_len = find_blank_line(bytes, 0);
        let head = vstd::slice::slice_subrange(bytes, 0, head_len);
        let ghost head_s = bytes@.subrange(0, head_len as int);
        if try_str_from_bytes(head).is_none() {
            return Err(RequestParseError::MalformedRequest);
        }
        let lines = split_lines(head);
        let ghost lines_s = split_crlf(head_s);
        proof {
            assert(vecs_view(lines@)[0] == lines@[0]@);
        }
        let tokens = split_on(lines[0].as_slice(), SP);
        let ghost tokens_s = split1(lines_s[0], SP);
        proof {
            assert(vecs_view(tokens@)[0] == tokens@[0]@);
        }
        let method = match HttpMethod::try_from(tokens[0].as_slice()) {
            Ok(m) => m,
            Err(_) => {
                return Err(RequestParseError::Method);
            },
        };
        if tokens.len() < 2 {
            return Err(RequestParseError::Route);
        }
        proof {
            assert(vecs_view(tokens@)[1] == tokens@[1]@);
        }
        if tokens.len() < 3 {
            return Err(RequestParseError::Protocol);
        }
        proof {
            assert(vecs_view(tokens@)[2] == tokens@[2]@);
        }
        let vparts = split_on(tokens[2].as_slice(), SLASH);
        proof {
            assert(vecs_view(vparts@)[0] == vparts@[0]@);
        }
        let scheme = to_ascii_lower(vparts[0].as_slice());
        if vparts.len() < 2 {
            return Err(RequestParseError::Protocol);
        }
        proof {
            assert(vecs_view(vparts@)[1] == vparts@[1]@);
        }
        let version = match parse_version(vparts[1].as_slice()) {
            Some(v) => v,
            None => {
                return Err(RequestParseError::Protocol);
            },
        };
        proof {
            assert(lines_s == vecs_view(lines@));
            assert(tokens_s == vecs_view(tokens@));
            assert(tokens_s.len() == tokens@.len());
            assert(vecs_view(vparts@) == split1(tokens_s[2], SLASH));
            assert(vecs_view(vparts@).len() == vparts@.len());
            assert(scheme@ == lower_bytes(split1(tokens_s[2], SLASH)[0]));
            assert(spec_parse_version(split1(tokens_s[2], SLASH)[1]) == Some(version));
            assert(HttpMethod::of_token(tokens_s[0]) == Some(method));
            assert(spec_decode(bytes@) == spec_decode_tail(
                bytes@,
                find_crlf2_from(bytes@, 0),
                lines_s,
                method,
                tokens_s[1],
                scheme@,
                version,
            ));
        }

        // Header lines.
        let mut headers: Vec<(Vec<u8>, Vec<u8>)> = Vec::new();
        let ghost all_hdr_lines = lines_s.drop_first();
        proof {
            assert(pairs_view(headers@) =~= Seq::<(Seq<u8>, Seq<u8>)>::empty());
            assert(lines_s.skip(1) =~= all_hdr_lines);
        }
        let mut i: usize = 1;
        while i < lines.len()
            invariant
                1 <= i <= lines@.len(),
                lines_s == vecs_view(lines@),
                lines_s.len() == lines@.len(),
                spec_collect_headers(all_hdr_lines, Seq::empty()) == spec_collect_headers(
                    lines_s.skip(i as int),
                    pairs_view(headers@),
                ),
            decreases lines@.len() - i,
        {
            let line = &lines[i];
            let ghost line_s = lines_s[i as int];
            proof {
                assert(vecs_view(lines@)[i as int] == lines@[i as int]@);
                assert(lines_s.skip(i as int)[0] == line_s);
                assert(lines_s.skip(i as int).drop_first() =~= lines_s.skip(i + 1));
            }
            let p = find_pair(line.as_slice(), 58, SP, 0);
            if p == line.len() {
                let lowered = to_ascii_lower(line.as_slice());
                proof {
                    assert(lines_s.skip(i as int).len() > 0);
                    assert(find2_from(line_s, 58, SP, 0) >= line_s.len());
                    assert(spec_collect_headers(lines_s.skip(i as int), pairs_view(headers@))
                        == Err::<Seq<(Seq<u8>, Seq<u8>)>, ParseErrorView>(
                        ParseErrorView::Header(lower_bytes(line_s)),
                    ));
                    assert(lowered@ == lower_bytes(line_s));
                    assert(spec_collect_headers(all_hdr_lines, Seq::empty())
                        == Err::<Seq<(Seq<u8>, Seq<u8>)>, ParseErrorView>(
                        ParseErrorView::Header(lower_bytes(line_s)),
                    ));
                    assert(spec_decode(bytes@) == Err::<RequestModel, ParseErrorView>(
                        ParseErrorView::Header(lower_bytes(line_s)),
                    ));
                }
                return Err(RequestParseError::Header(lowered));
            }
            let name = to_ascii_lower(vstd::slice::slice_subrange(line.as_slice(), 0, p));
            let value = copy_bytes(vstd::slice::slice_subrange(line.as_slice(), p + 2, line.len()));
            assoc_upsert(&mut headers, name, value);
            i += 1;
        }
        proof {
            assert(lines_s.skip(lines_s.len() as int) =~= Seq::<Seq<u8>>::empty());
            assert(spec_collect_headers(all_hdr_lines, Seq::empty()) == Ok::<
                Seq<(Seq<u8>, Seq<u8>)>,
                ParseErrorView,
            >(pairs_view(headers@)));
        }

        // The mandatory host header.
        let raw_host = match assoc_lookup(&headers, host_key_vec().as_slice()) {
            Some(h) => copy_bytes(h.as_slice()),
            None => {
                return Err(RequestParseError::Host);
            },
        };

        // The body, framed by `Content-Length` when a boundary was found.
        let cl_name = content_length_name_vec();
        let cl_key = to_ascii_lower(cl_name.as_slice());
        let body: Vec<u8> = if head_len == bytes.len() {
            Vec::new()
        } else {
            match assoc_lookup(&headers, cl_key.as_slice()) {
                None => Vec::new(),
                Some(lv) => {
                    let lv_slice = lv.as_slice();
                    match parse_dec(lv_slice, usize::MAX as u64) {
                        None => {
                            return Err(RequestParseError::Header(cl_key));
                        },
                        Some(n) => {
                            let n = n as usize;
                            if n > bytes.len() - (head_len + 4) {
                                return Err(RequestParseError::Body);
                            }
                            vstd::slice::slice_to_vec(
                                vstd::slice::slice_subrange(bytes, head_len + 4, head_len + 4 + n),
                            )
                        },
                    }
                },
            }
        };

        // Recover the normalized path, host, and query parameters from the
        // assembled resource locator.
        let locator = assemble_locator(scheme.as_slice(), raw_host.as_slice(), tokens[1].as_slice());
        match url_split_target(locator.as_slice()) {
            None => Err(RequestParseError::Route),
            Some(t) => {
                let (route, host, query) = t;
                let req = Request {
                    peer,
                    method,
                    route,
                    protocol: scheme,
                    version,
                    host,
                    headers,
                    query,
                    body,
                };
                Ok(req)
            },
        }
    }
}

// ---------- Response ----------

/// The mathematical image of a response.
pub struct ResponseModel {
    pub protocol: Seq<u8>,
    pub version: HttpVersion,
    pub status: u16,
    pub headers: Seq<(Seq<u8>, Seq<u8>)>,
    pub body: Seq<u8>,
}

/// A builder-style response: headers keep their keys as supplied, in
/// insertion order; every body-filling constructor stamps `Content-Length`
/// with the exact total byte length of the body and a `Content-Type`.
#[derive(Debug)]
pub struct Response {
    pub protocol: Vec<u8>,
    pub version: HttpVersion,
    pub status: u16,
    pub headers: Vec<(Vec<u8>, Vec<u8>)>,
    pub body: Vec<u8>,
}

pub open spec fn crlf() -> Seq<u8> {
    seq![CR, LF]
}

/// One encoded header line: `Name: value` then the line separator.
pub open spec fn header_line(h: (Seq<u8>, Seq<u8>)) -> Seq<u8> {
    h.0 + seq![58u8, 32u8] + h.1 + crlf()
}

/// The encoded header block, in mapping order.
pub open spec fn header_block(hs: Seq<(Seq<u8>, Seq<u8>)>) -> Seq<u8>
    decreases hs.len(),
{
    if hs.len() == 0 {
        Seq::empty()
    } else {
        header_block(hs.drop_last()) + header_line(hs.last())
    }
}

/// The status line: `SCHEME/VERSION STATUS` then the line separator.
pub open spec fn status_line(protocol: Seq<u8>, version: HttpVersion, status: u16) -> Seq<u8> {
    upper_bytes(protocol) + seq![SLASH] + dec_str(version.major as nat) + seq![46u8] + dec_str(
        version.minor as nat,
    ) + seq![SP] + dec_str(status as nat) + crlf()
}

/// The full encoding: status line, header lines, a blank line, then the body
/// (when non-empty) terminated by a blank line.
pub open spec fn spec_encode(r: ResponseModel) -> Seq<u8> {
    status_line(r.protocol, r.version, r.status) + header_block(r.headers) + crlf() + (if r.body.len()
        > 0 {
        r.body + crlf() + crlf()
    } else {
        Seq::<u8>::empty()
    })
}

/// The lowercased `content-length` header name.
pub open spec fn content_length_key() -> Seq<u8> {
    lower_bytes(content_length_name())
}

/// The `Content-Length` header name as written by the body fillers.
pub open spec fn content_length_name() -> Seq<u8> {
    seq![67u8, 111u8, 110u8, 116u8, 101u8, 110u8, 116u8, 45u8, 76u8, 101u8, 110u8, 103u8, 116u8, 104u8]
}

/// The `Content-Type` header name as written by the body fillers.
pub open spec fn content_type_name() -> Seq<u8> {
    seq![67u8, 111u8, 110u8, 116u8, 101u8, 110u8, 116u8, 45u8, 84u8, 121u8, 112u8, 101u8]
}

/// Exec copy of `Content-Length`.
pub fn content_length_name_vec() -> (r: Vec<u8>)
    ensures
        r@ == content_length_name(),
{
    let mut v: Vec<u8> = Vec::new();
    v.push(67);
    v.push(111);
    v.push(110);
    v.push(116);
    v.push(101);
    v.push(110);
    v.push(116);
    v.push(45);
    v.push(76);
    v.push(101);
    v.push(110);
    v.push(103);
    v.push(116);
    v.push(104);
    proof {
        assert(v@ =~= content_length_name());
    }
    v
}

/// Exec copy of `Content-Type`.
pub fn content_type_name_vec() -> (r: Vec<u8>)
    ensures
        r@ == content_type_name(),
{
    let mut v: Vec<u8> = Vec::new();
    v.push(67);
    v.push(111);
    v.push(110);
    v.push(116);
    v.push(101);
    v.push(110);
    v.push(116);
    v.push(45);
    v.push(84);
    v.push(121);
    v.push(112);
    v.push(101);
    proof {
        assert(v@ =~= content_type_name());
    }
    v
}

impl Response {
    pub open spec fn model(&self) -> ResponseModel {
        ResponseModel {
            protocol: self.protocol@,
            version: self.version,
            status: self.status,
            headers: pairs_view(self.headers@),
            body: self.body@,
        }
    }

    /// A bare response with the given status and nothing else set.
    pub fn new(status: u16) -> (r: Response)
        ensures
            r.model() == (ResponseModel {
                protocol: Seq::<u8>::empty(),
                version: HttpVersion { major: 0, minor: 0 },
                status,
                headers: Seq::<(Seq<u8>, Seq<u8>)>::empty(),
                body: Seq::<u8>::empty(),
            }),
    {
        let r = Response {
            protocol: Vec::new(),
            version: HttpVersion { major: 0, minor: 0 },
            status,
            headers: Vec::new(),
            body: Vec::new(),
        };
        proof {
            assert(pairs_view(r.headers@) =~= Seq::<(Seq<u8>, Seq<u8>)>::empty());
        }
        r
    }

    /// A text response: the body is the text, `Content-Length` its exact byte
    /// length, and the content type `text/html`.
    pub fn text(text: &str, status: u16) -> (r: Response)
        ensures
            r.model().status == status,
            r.model().body == text.spec_bytes(),
            r.model().headers == upsert(
                upsert(
                    Seq::<(Seq<u8>, Seq<u8>)>::empty(),
                    content_length_name(),
                    dec_str(text.spec_bytes().len()),
                ),
                content_type_name(),
                "text/html".spec_bytes(),
            ),
            r.model().protocol == Seq::<u8>::empty(),
            r.model().version == (HttpVersion { major: 0, minor: 0 }),
    {
        let mut r = Response::new(status);
        r.set_body(text.as_bytes(), "text/html".as_bytes());
        proof {
            assert(Seq::<u8>::empty() + text.spec_bytes() =~= text.spec_bytes());
        }
        r
    }

    /// Copy the protocol scheme and version over from the originating request,
    /// leaving everything else unchanged.
    pub fn fill_from(&mut self, request: &Request)
        ensures
            final(self).model() == (ResponseModel {
                protocol: request.model().protocol,
                version: request.model().version,
                ..old(self).model()
            }),
    {
        self.version = request.version;
        let mut p: Vec<u8> = Vec::new();
        p.extend_from_slice(request.protocol.as_slice());
        proof {
            assert(p@ =~= request.protocol@);
        }
        self.protocol = p;
    }

    /// Append to the body and stamp `Content-Length` with the exact total
    /// byte length of the body, and `Content-Type` with the given type.
    pub fn set_body(&mut self, body: &[u8], content_type: &[u8])
        ensures
            final(self).model() == (ResponseModel {
                body: old(self).model().body + body@,
                headers: upsert(
                    upsert(
                        old(self).model().headers,
                        content_length_name(),
                        dec_str(old(self).model().body.len() + body@.len()),
                    ),
                    content_type_name(),
                    content_type@,
                ),
                ..old(self).model()
            }),
    {
        self.body.extend_from_slice(body);
        proof {
            assert(self.body@.len() == old(self).model().body.len() + body@.len());
        }
        let len = self.body.len();
        let len_text = render_dec(len as u64);
        let mut ct: Vec<u8> = Vec::new();
        ct.extend_from_slice(content_type);
        proof {
            assert(ct@ =~= content_type@);
        }
        assoc_upsert(&mut self.headers, content_length_name_vec(), len_text);
        assoc_upsert(&mut self.headers, content_type_name_vec(), ct);
        proof {
            assert(self.body@ == old(self).model().body + body@);
            assert(len_text@ == dec_str(old(self).model().body.len() + body@.len()));
            assert(pairs_view(self.headers@) == upsert(
                upsert(
                    old(self).model().headers,
                    content_length_name(),
                    dec_str(old(self).model().body.len() + body@.len()),
                ),
                content_type_name(),
                content_type@,
            ));
        }
    }

    /// Map a header name to a value: last value wins, first-insertion order.
    pub fn header(&mut self, header: &[u8], value: &[u8])
        ensures
            final(self).model() == (ResponseModel {
                headers: upsert(old(self).model().headers, header@, value@),
                ..old(self).model()
            }),
    {
        let mut k: Vec<u8> = Vec::new();
        k.extend_from_slice(header);
        let mut v: Vec<u8> = Vec::new();
        v.extend_from_slice(value);
        proof {
            assert(k@ =~= header@);
            assert(v@ =~= value@);
        }
        assoc_upsert(&mut self.headers, k, v);
    }

    /// The content type used for a file with this name, by suffix lookup
    /// against the static extension table.
    pub fn file_content_type(filename: &str) -> (r: String)
        ensures
            r@ == crate::content_type::content_type_of(
                lower_bytes(crate::content_type::ext_of(filename.spec_bytes())),
            ),
    {
        crate::content_type::file_content_type(filename)
    }

    /// Encode to wire bytes, consuming the response.
    pub fn to_bytes(self) -> (r: Vec<u8>)
        ensures
            r@ == spec_encode(self.model()),
    {
        let ghost m = self.model();
        let mut out: Vec<u8> = Vec::new();
        let upper = to_ascii_upper(self.protocol.as_slice());
        out.extend_from_slice(upper.as_slice());
        out.push(SLASH);
        let major = render_dec(self.version.major as u64);
        out.extend_from_slice(major.as_slice());
        out.push(46);
        let minor = render_dec(self.version.minor as u64);
        out.extend_from_slice(minor.as_slice());
        out.push(SP);
        let status = render_dec(self.status as u64);
        out.extend_from_slice(status.as_slice());
        out.push(CR);
        out.push(LF);
        proof {
            assert(out@ =~= status_line(m.protocol, m.version, m.status));
        }
        let ghost sl = status_line(m.protocol, m.version, m.status);
        let mut i: usize = 0;
        while i < self.headers.len()
            invariant
                i <= self.headers@.len(),
                m.headers == pairs_view(self.headers@),
                m.headers.len() == self.headers@.len(),
                out@ == sl + header_block(m.headers.take(i as int)),
            decreases self.headers@.len() - i,
        {
            out.extend_from_slice(self.headers[i].0.as_slice());
            out.push(58);
            out.push(SP);
            out.extend_from_slice(self.headers[i].1.as_slice());
            out.push(CR);
            out.push(LF);
            proof {
                let taken = m.headers.take(i + 1);
                assert(taken.drop_last() =~= m.headers.take(i as int));
                assert(taken.last() == m.headers[i as int]);
                assert(out@ =~= sl + header_block(m.headers.take(i as int)) + header_line(
                    m.headers[i as int],
                ));
                assert(out@ =~= sl + header_block(taken));
            }
            i += 1;
        }
        proof {
            assert(m.headers.take(m.headers.len() as int) =~= m.headers);
        }
        out.push(CR);
        out.push(LF);
        if self.body.len() > 0 {
            out.extend_from_slice(self.body.as_slice());
            out.push(CR);
            out.push(LF);
            out.push(CR);
            out.push(LF);
            proof {
                assert(out@ =~= spec_encode(m));
            }
        } else {
            proof {
                assert(out@ =~= spec_encode(m));
            }
        }
        out
    }
}

} // verus!
