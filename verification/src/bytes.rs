//! Byte-sequence utilities shared by the codec and the router: ASCII case
//! mapping, pattern search, splitting, and decimal parsing/rendering.

use vstd::prelude::*;

verus! {

pub const CR: u8 = 13;
pub const LF: u8 = 10;
pub const SP: u8 = 32;
pub const SLASH: u8 = 47;
pub const DOT: u8 = 46;
pub const COLON: u8 = 58;

// ---------- ASCII case ----------

pub open spec fn to_lower_byte(b: u8) -> u8 {
    if 65 <= b <= 90 {
        (b + 32) as u8
    } else {
        b
    }
}

pub open spec fn to_upper_byte(b: u8) -> u8 {
    if 97 <= b <= 122 {
        (b - 32) as u8
    } else {
        b
    }
}

pub open spec fn lower_bytes(s: Seq<u8>) -> Seq<u8> {
    s.map_values(|b: u8| to_lower_byte(b))
}

pub open spec fn upper_bytes(s: Seq<u8>) -> Seq<u8> {
    s.map_values(|b: u8| to_upper_byte(b))
}

/// ASCII-lowercase a byte string, leaving all non-letter bytes unchanged.
pub fn to_ascii_lower(v: &[u8]) -> (r: Vec<u8>)
    ensures
        r@ == lower_bytes(v@),
{
    let mut r: Vec<u8> = Vec::new();
    let mut i: usize = 0;
    while i < v.len()
        invariant
            i <= v@.len(),
            r@.len() == i,
            forall|j: int| 0 <= j < i ==> r@[j] == to_lower_byte(v@[j]),
        decreases v@.len() - i,
    {
        let b = v[i];
        if 65 <= b && b <= 90 {
            r.push(b + 32);
        } else {
            r.push(b);
        }
        i += 1;
    }
    proof {
        assert(r@ =~= lower_bytes(v@));
    }
    r
}

/// ASCII-uppercase a byte string, leaving all non-letter bytes unchanged.
pub fn to_ascii_upper(v: &[u8]) -> (r: Vec<u8>)
    ensures
        r@ == upper_bytes(v@),
{
    let mut r: Vec<u8> = Vec::new();
    let mut i: usize = 0;
    while i < v.len()
        invariant
            i <= v@.len(),
            r@.len() == i,
            forall|j: int| 0 <= j < i ==> r@[j] == to_upper_byte(v@[j]),
        decreases v@.len() - i,
    {
        let b = v[i];
        if 97 <= b && b <= 122 {
            r.push(b - 32);
        } else {
            r.push(b);
        }
        i += 1;
    }
    proof {
        assert(r@ =~= upper_bytes(v@));
    }
    r
}

// ---------- equality ----------

/// Byte-string equality.
pub fn bytes_eq(a: &[u8], b: &[u8]) -> (r: bool)
    ensures
        r == (a@ == b@),
{
    if a.len() != b.len() {
        return false;
    }
    let mut i: usize = 0;
    while i < a.len()
        invariant
            i <= a@.len(),
            a@.len() == b@.len(),
            forall|j: int| 0 <= j < i ==> a@[j] == b@[j],
        decreases a@.len() - i,
    {
        if a[i] != b[i] {
            return false;
        }
        i += 1;
    }
    proof {
        assert(a@ =~= b@);
    }
    true
}

// ---------- pattern search ----------

/// Index of the first occurrence of `sep` in `s` at or after `i`,
/// or `s.len()` when there is none.
pub open spec fn find1_from(s: Seq<u8>, sep: u8, i: int) -> int
    decreases s.len() - i,
{
    if !(0 <= i < s.len()) {
        s.len() as int
    } else if s[i] == sep {
        i
    } else {
        find1_from(s, sep, i + 1)
    }
}

pub proof fn lemma_find1_is(s: Seq<u8>, sep: u8, i: int, k: int)
    requires
        0 <= i <= k <= s.len(),
        forall|j: int| i <= j < k ==> s[j] != sep,
        k < s.len() ==> s[k] == sep,
    ensures
        find1_from(s, sep, i) == k,
    decreases k - i,
{
    if i < k {
        lemma_find1_is(s, sep, i + 1, k);
    }
}

/// Index of the first occurrence of the two-byte pattern `a b` in `s`
/// at or after `i`, or `s.len()` when there is none.
pub open spec fn find2_from(s: Seq<u8>, a: u8, b: u8, i: int) -> int
    decreases s.len() - i,
{
    if !(0 <= i) || i + 2 > s.len() {
        s.len() as int
    } else if s[i] == a && s[i + 1] == b {
        i
    } else {
        find2_from(s, a, b, i + 1)
    }
}

pub open spec fn pat2_at(s: Seq<u8>, a: u8, b: u8, j: int) -> bool {
    j + 2 <= s.len() && s[j] == a && s[j + 1] == b
}

pub proof fn lemma_find2_is(s: Seq<u8>, a: u8, b: u8, i: int, k: int)
    requires
        0 <= i <= k <= s.len(),
        forall|j: int| i <= j < k ==> !pat2_at(s, a, b, j),
        k < s.len() ==> pat2_at(s, a, b, k),
    ensures
        find2_from(s, a, b, i) == k,
    decreases k - i,
{
    if i < k {
        assert(!pat2_at(s, a, b, i));
        lemma_find2_is(s, a, b, i + 1, k);
    }
}

/// True when the blank-line delimiter CR LF CR LF stands at position `j`.
pub open spec fn crlf2_at(s: Seq<u8>, j: int) -> bool {
    j + 4 <= s.len() && s[j] == CR && s[j + 1] == LF && s[j + 2] == CR && s[j + 3] == LF
}

/// Index of the first CR LF CR LF in `s` at or after `i`, or `s.len()`.
pub open spec fn find_crlf2_from(s: Seq<u8>, i: int) -> int
    decreases s.len() - i,
{
    if !(0 <= i) || i + 4 > s.len() {
        s.len() as int
    } else if s[i] == CR && s[i + 1] == LF && s[i + 2] == CR && s[i + 3] == LF {
        i
    } else {
        find_crlf2_from(s, i + 1)
    }
}

pub proof fn lemma_find_crlf2_range(s: Seq<u8>, i: int)
    requires
        0 <= i <= s.len(),
    ensures
        i <= find_crlf2_from(s, i) <= s.len(),
    decreases s.len() - i,
{
    if i + 4 <= s.len() && !(s[i] == CR && s[i + 1] == LF && s[i + 2] == CR && s[i + 3] == LF) {
        lemma_find_crlf2_range(s, i + 1);
    }
}

pub proof fn lemma_find_crlf2_is(s: Seq<u8>, i: int, k: int)
    requires
        0 <= i <= k <= s.len(),
        forall|j: int| i <= j < k ==> !crlf2_at(s, j),
        k < s.len() ==> crlf2_at(s, k),
    ensures
        find_crlf2_from(s, i) == k,
    decreases k - i,
{
    if i < k {
        assert(!crlf2_at(s, i));
        lemma_find_crlf2_is(s, i + 1, k);
    }
}

/// Exec search for a single byte.
pub fn find_byte(v: &[u8], sep: u8, from: usize) -> (r: usize)
    requires
        from <= v@.len(),
    ensures
        r == find1_from(v@, sep, from as int),
        from <= r <= v@.len(),
        r < v@.len() ==> v@[r as int] == sep,
        forall|j: int| from <= j < r ==> v@[j] != sep,
{
    let mut i = from;
    while i < v.len()
        invariant
            from <= i <= v@.len(),
            forall|j: int| from <= j < i ==> v@[j] != sep,
        decreases v@.len() - i,
    {
        if v[i] == sep {
            proof {
                lemma_find1_is(v@, sep, from as int, i as int);
            }
            return i;
        }
        i += 1;
    }
    proof {
        lemma_find1_is(v@, sep, from as int, v@.len() as int);
    }
    v.len()
}

/// Exec search for a two-byte pattern.
pub fn find_pair(v: &[u8], a: u8, b: u8, from: usize) -> (r: usize)
    requires
        from <= v@.len(),
    ensures
        r == find2_from(v@, a, b, from as int),
        from <= r <= v@.len(),
        r < v@.len() ==> pat2_at(v@, a, b, r as int),
        forall|j: int| from <= j < r ==> !pat2_at(v@, a, b, j),
{
    let mut i = from;
    while v.len() - i >= 2
        invariant
            from <= i <= v@.len(),
            forall|j: int| from <= j < i ==> !pat2_at(v@, a, b, j),
        decreases v@.len() - i,
    {
        if v[i] == a && v[i + 1] == b {
            proof {
                lemma_find2_is(v@, a, b, from as int, i as int);
            }
            return i;
        }
        i += 1;
    }
    proof {
        lemma_find2_is(v@, a, b, from as int, v@.len() as int);
    }
    v.len()
}

/// Exec search for the blank-line delimiter CR LF CR LF.
pub fn find_blank_line(v: &[u8], from: usize) -> (r: usize)
    requires
        from <= v@.len(),
    ensures
        r == find_crlf2_from(v@, from as int),
        from <= r <= v@.len(),
        r < v@.len() ==> crlf2_at(v@, r as int),
        forall|j: int| from <= j < r ==> !crlf2_at(v@, j),
{
    let mut i = from;
    while v.len() - i >= 4
        invariant
            from <= i <= v@.len(),
            forall|j: int| from <= j < i ==> !crlf2_at(v@, j),
        decreases v@.len() - i,
    {
        if v[i] == CR && v[i + 1] == LF && v[i + 2] == CR && v[i + 3] == LF {
            proof {
                lemma_find_crlf2_is(v@, from as int, i as int);
            }
            return i;
        }
        i += 1;
    }
    proof {
        lemma_find_crlf2_is(v@, from as int, v@.len() as int);
    }
    v.len()
}

// ---------- splitting ----------

/// The views of a sequence of byte vectors.
pub open spec fn vecs_view(v: Seq<Vec<u8>>) -> Seq<Seq<u8>> {
    v.map_values(|x: Vec<u8>| x@)
}

/// Split on a one-byte separator; always yields at least one piece.
pub open spec fn split1(s: Seq<u8>, sep: u8) -> Seq<Seq<u8>>
    decreases s.len(),
{
    let p = find1_from(s, sep, 0);
    if !(0 <= p < s.len()) {
        seq![s]
    } else {
        seq![s.subrange(0, p)] + split1(s.subrange(p + 1, s.len() as int), sep)
    }
}

/// Split on the two-byte line separator CR LF; always yields at least one piece.
pub open spec fn split_crlf(s: Seq<u8>) -> Seq<Seq<u8>>
    decreases s.len(),
{
    let p = find2_from(s, CR, LF, 0);
    if !(0 <= p) || p + 2 > s.len() {
        seq![s]
    } else {
        seq![s.subrange(0, p)] + split_crlf(s.subrange(p + 2, s.len() as int))
    }
}

/// Exec split on a one-byte separator.
pub fn split_on(v: &[u8], sep: u8) -> (r: Vec<Vec<u8>>)
    ensures
        vecs_view(r@) == split1(v@, sep),
        r@.len() >= 1,
{
    let mut r: Vec<Vec<u8>> = Vec::new();
    let mut start: usize = 0;
    proof {
        assert(v@.subrange(0, v@.len() as int) =~= v@);
        assert(vecs_view(r@) + split1(v@, sep) =~= split1(v@, sep));
    }
    loop
        invariant
            start <= v@.len(),
            split1(v@, sep) =~= vecs_view(r@) + split1(v@.subrange(start as int, v@.len() as int), sep),
        decreases v@.len() - start,
    {
        let ghost rest = v@.subrange(start as int, v@.len() as int);
        let k = find_byte(v, sep, start);
        let piece = vstd::slice::slice_to_vec(vstd::slice::slice_subrange(v, start, k));
        proof {
            lemma_find1_is(rest, sep, 0, k - start);
            assert(rest.subrange(0, k - start) =~= v@.subrange(start as int, k as int));
        }
        let ghost r_old = r@;
        r.push(piece);
        proof {
            assert(vecs_view(r@) =~= vecs_view(r_old).push(v@.subrange(start as int, k as int)));
        }
        if k == v.len() {
            proof {
                assert(split1(rest, sep) =~= seq![rest]);
                assert(rest =~= v@.subrange(start as int, k as int));
                assert(vecs_view(r@) =~= vecs_view(r_old) + seq![rest]);
                assert(split1(v@, sep) =~= vecs_view(r@));
            }
            return r;
        }
        proof {
            assert(rest.subrange(k - start + 1, rest.len() as int) =~= v@.subrange(
                k + 1,
                v@.len() as int,
            ));
            assert(split1(rest, sep) =~= seq![rest.subrange(0, k - start)] + split1(
                rest.subrange(k - start + 1, rest.len() as int),
                sep,
            ));
            assert(vecs_view(r_old) + split1(rest, sep) =~= vecs_view(r@) + split1(
                v@.subrange(k + 1, v@.len() as int),
                sep,
            ));
        }
        start = k + 1;
    }
}

/// Exec split on CR LF.
pub fn split_lines(v: &[u8]) -> (r: Vec<Vec<u8>>)
    ensures
        vecs_view(r@) == split_crlf(v@),
        r@.len() >= 1,
{
    let mut r: Vec<Vec<u8>> = Vec::new();
    let mut start: usize = 0;
    proof {
        assert(v@.subrange(0, v@.len() as int) =~= v@);
        assert(vecs_view(r@) + split_crlf(v@) =~= split_crlf(v@));
    }
    loop
        invariant
            start <= v@.len(),
            split_crlf(v@) =~= vecs_view(r@) + split_crlf(v@.subrange(start as int, v@.len() as int)),
        decreases v@.len() - start,
    {
        let ghost rest = v@.subrange(start as int, v@.len() as int);
        let k = find_pair(v, CR, LF, start);
        let piece = vstd::slice::slice_to_vec(vstd::slice::slice_subrange(v, start, k));
        proof {
            assert forall|j: int| 0 <= j < k - start implies !pat2_at(rest, CR, LF, j) by {
                assert(!pat2_at(v@, CR, LF, j + start));
            }
            lemma_find2_is(rest, CR, LF, 0, k - start);
            assert(rest.subrange(0, k - start) =~= v@.subrange(start as int, k as int));
        }
        let ghost r_old = r@;
        r.push(piece);
        proof {
            assert(vecs_view(r@) =~= vecs_view(r_old).push(v@.subrange(start as int, k as int)));
        }
        if k == v.len() {
            proof {
                assert(split_crlf(rest) =~= seq![rest]);
                assert(rest =~= v@.subrange(start as int, k as int));
                assert(split_crlf(v@) =~= vecs_view(r@));
            }
            return r;
        }
        proof {
            assert(rest.subrange(k - start + 2, rest.len() as int) =~= v@.subrange(
                k + 2,
                v@.len() as int,
            ));
            assert(split_crlf(rest) =~= seq![rest.subrange(0, k - start)] + split_crlf(
                rest.subrange(k - start + 2, rest.len() as int),
            ));
            assert(vecs_view(r_old) + split_crlf(rest) =~= vecs_view(r@) + split_crlf(
                v@.subrange(k + 2, v@.len() as int),
            ));
        }
        start = k + 2;
    }
}

// ---------- decimal numbers ----------

pub open spec fn is_digit(b: u8) -> bool {
    48 <= b <= 57
}

pub open spec fn all_digits(s: Seq<u8>) -> bool {
    forall|i: int| 0 <= i < s.len() ==> is_digit(#[trigger] s[i])
}

/// The value of a digit string, most significant digit first.
pub open spec fn dec_val(s: Seq<u8>) -> nat
    decreases s.len(),
{
    if s.len() == 0 {
        0
    } else {
        dec_val(s.drop_last()) * 10 + (if s.last() >= 48 {
            (s.last() - 48) as nat
        } else {
            0
        })
    }
}

/// The canonical decimal rendering of a number (no leading zeros).
pub open spec fn dec_str(n: nat) -> Seq<u8>
    decreases n,
{
    if n < 10 {
        seq![(48 + n) as u8]
    } else {
        dec_str(n / 10).push((48 + n % 10) as u8)
    }
}

pub proof fn lemma_dec_val_prefix(s: Seq<u8>, k: int)
    requires
        all_digits(s),
        0 <= k <= s.len(),
    ensures
        dec_val(s) >= dec_val(s.take(k)),
    decreases s.len(),
{
    if k < s.len() {
        assert(s.drop_last().take(k) =~= s.take(k));
        assert(all_digits(s.drop_last()));
        lemma_dec_val_prefix(s.drop_last(), k);
    } else {
        assert(s.take(k) =~= s);
    }
}

/// Rendering then reading a number gives the number back.
pub proof fn lemma_dec_roundtrip(n: nat)
    ensures
        dec_val(dec_str(n)) == n,
        all_digits(dec_str(n)),
        dec_str(n).len() >= 1,
    decreases n,
{
    if n < 10 {
        let s = dec_str(n);
        assert(s =~= seq![(48 + n) as u8]);
        assert(s.drop_last() =~= Seq::<u8>::empty());
        assert(dec_val(s.drop_last()) == 0);
        assert(dec_val(dec_str(n)) == n);
    } else {
        lemma_dec_roundtrip(n / 10);
        let s = dec_str(n);
        assert(s.drop_last() =~= dec_str(n / 10));
        assert(dec_val(s) == dec_val(dec_str(n / 10)) * 10 + n % 10);
    }
}

/// Parse a decimal byte string, rejecting empty strings, non-digits,
/// and values above `max`.
pub fn parse_dec(v: &[u8], max: u64) -> (r: Option<u64>)
    ensures
        r is Some <==> (v@.len() > 0 && all_digits(v@) && dec_val(v@) <= max),
        r matches Some(n) ==> n == dec_val(v@),
{
    if v.len() == 0 {
        return None;
    }
    let mut acc: u64 = 0;
    let mut i: usize = 0;
    while i < v.len()
        invariant
            i <= v@.len(),
            v@.len() > 0,
            acc == dec_val(v@.take(i as int)),
            acc <= max,
            max <= u64::MAX,
            all_digits(v@.take(i as int)),
        decreases v@.len() - i,
    {
        let b = v[i];
        if b < 48 || b > 57 {
            return None;
        }
        let d = (b - 48) as u64;
        proof {
            assert(v@.take(i + 1).drop_last() =~= v@.take(i as int));
            assert(v@.take(i + 1).last() == v@[i as int]);
        }
        let o = acc.checked_mul(10);
        if o.is_none() {
            proof {
                if all_digits(v@) && dec_val(v@) <= max {
                    lemma_dec_val_prefix(v@, i + 1);
                    assert(dec_val(v@.take(i + 1)) == acc * 10 + d);
                }
            }
            return None;
        }
        let m = o.unwrap();
        if m > u64::MAX - d {
            proof {
                if all_digits(v@) && dec_val(v@) <= max {
                    lemma_dec_val_prefix(v@, i + 1);
                }
            }
            return None;
        }
        let next = m + d;
        if next > max {
            proof {
                if all_digits(v@) && dec_val(v@) <= max {
                    lemma_dec_val_prefix(v@, i + 1);
                }
            }
            return None;
        }
        acc = next;
        i += 1;
    }
    proof {
        assert(v@.take(i as int) =~= v@);
    }
    Some(acc)
}

/// Render a number in decimal.
pub fn render_dec(n: u64) -> (r: Vec<u8>)
    ensures
        r@ == dec_str(n as nat),
    decreases n,
{
    if n < 10 {
        let mut v: Vec<u8> = Vec::new();
        v.push(48 + n as u8);
        proof {
            assert(v@ =~= dec_str(n as nat));
        }
        v
    } else {
        let mut v = render_dec(n / 10);
        v.push(48 + (n % 10) as u8);
        v
    }
}

} // verus!
