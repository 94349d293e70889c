//! Byte-level helpers shared by request parsing and response serialization:
//! scanning for CRLF line ends, whitespace handling, and byte-sequence
//! comparison.

use vstd::prelude::*;

verus! {

/// Carriage return.
pub const CR: u8 = 13;

/// Line feed.
pub const LF: u8 = 10;

/// ASCII space or horizontal tab: the separators inside one wire line.
pub open spec fn is_ws(b: u8) -> bool {
    b == 32 || b == 9
}

/// A CRLF pair starts at index `i` of `s`.
pub open spec fn is_crlf_at(s: Seq<u8>, i: int) -> bool {
    &&& 0 <= i
    &&& i + 1 < s.len()
    &&& s[i] == CR
    &&& s[i + 1] == LF
}

/// Index of the first CRLF pair at or after `from`, if any.
pub open spec fn find_crlf(s: Seq<u8>, from: int) -> Option<int>
    decreases s.len() - from when from >= 0
{
    if from + 1 < s.len() {
        if s[from] == CR && s[from + 1] == LF {
            Some(from)
        } else {
            find_crlf(s, from + 1)
        }
    } else {
        None
    }
}

/// `find_crlf` returns the first CRLF position at or after `from`.
pub proof fn lemma_find_crlf(s: Seq<u8>, from: int)
    requires
        0 <= from,
    ensures
        match find_crlf(s, from) {
            Some(i) => is_crlf_at(s, i) && from <= i && forall|j: int|
                from <= j < i ==> !is_crlf_at(s, j),
            None => forall|j: int| from <= j ==> !is_crlf_at(s, j),
        },
    decreases s.len() - from,
{
    if from + 1 < s.len() {
        if s[from] == CR && s[from + 1] == LF {
        } else {
            lemma_find_crlf(s, from + 1);
        }
    }
}

/// Find the first CRLF pair at or after `from` in `v`.
pub fn find_crlf_from(v: &Vec<u8>, from: usize) -> (r: Option<usize>)
    requires
        from <= v@.len(),
    ensures
        match r {
            Some(i) => find_crlf(v@, from as int) == Some(i as int) && from <= i && i + 1
                < v@.len(),
            None => find_crlf(v@, from as int) is None,
        },
{
    let n = v.len();
    let mut i: usize = from;
    loop
        invariant
            from <= i <= n,
            n == v@.len(),
            forall|j: int| from <= j < i ==> !is_crlf_at(v@, j),
        decreases n - i,
    {
        if i >= n || n - i < 2 {
            proof {
                lemma_find_crlf(v@, from as int);
                if let Some(k) = find_crlf(v@, from as int) {
                    assert(is_crlf_at(v@, k));
                    assert(from <= k < i);
                    assert(false);
                }
            }
            return None;
        }
        if v[i] == CR && v[i + 1] == LF {
            proof {
                assert(is_crlf_at(v@, i as int));
                lemma_find_crlf(v@, from as int);
                match find_crlf(v@, from as int) {
                    Some(k) => {
                        assert(!(k < i)) by {
                            if k < i {
                                assert(!is_crlf_at(v@, k));
                            }
                        }
                        assert(!(i < k)) by {
                            if i < k {
                                assert(!is_crlf_at(v@, i as int));
                            }
                        }
                    },
                    None => {
                        assert(!is_crlf_at(v@, i as int));
                    },
                }
            }
            return Some(i);
        }
        i = i + 1;
    }
}

/// Bytes arriving after a found CRLF do not move it.
pub proof fn lemma_find_crlf_extension(s: Seq<u8>, t: Seq<u8>, from: int)
    requires
        0 <= from,
        find_crlf(s, from) is Some,
    ensures
        find_crlf(s + t, from) == find_crlf(s, from),
    decreases s.len() - from,
{
    if s[from] == CR && s[from + 1] == LF {
        assert((s + t)[from] == s[from]);
        assert((s + t)[from + 1] == s[from + 1]);
    } else {
        lemma_find_crlf_extension(s, t, from + 1);
        assert((s + t)[from] == s[from]);
        assert((s + t)[from + 1] == s[from + 1]);
    }
}

/// First index at or after `from` whose byte is not whitespace, or the end.
pub open spec fn skip_ws_spec(s: Seq<u8>, from: int) -> int
    decreases s.len() - from when 0 <= from <= s.len()
{
    if from < s.len() && is_ws(s[from]) {
        skip_ws_spec(s, from + 1)
    } else {
        from
    }
}

/// First index at or after `from` whose byte is whitespace, or the end.
pub open spec fn skip_token_spec(s: Seq<u8>, from: int) -> int
    decreases s.len() - from when 0 <= from <= s.len()
{
    if from < s.len() && !is_ws(s[from]) {
        skip_token_spec(s, from + 1)
    } else {
        from
    }
}

pub proof fn lemma_skip_ws(s: Seq<u8>, from: int)
    requires
        0 <= from <= s.len(),
    ensures
        from <= skip_ws_spec(s, from) <= s.len(),
        forall|j: int| from <= j < skip_ws_spec(s, from) ==> is_ws(s[j]),
        skip_ws_spec(s, from) < s.len() ==> !is_ws(s[skip_ws_spec(s, from)]),
    decreases s.len() - from,
{
    if from < s.len() && is_ws(s[from]) {
        lemma_skip_ws(s, from + 1);
    }
}

pub proof fn lemma_skip_token(s: Seq<u8>, from: int)
    requires
        0 <= from <= s.len(),
    ensures
        from <= skip_token_spec(s, from) <= s.len(),
        forall|j: int| from <= j < skip_token_spec(s, from) ==> !is_ws(s[j]),
        skip_token_spec(s, from) < s.len() ==> is_ws(s[skip_token_spec(s, from)]),
    decreases s.len() - from,
{
    if from < s.len() && !is_ws(s[from]) {
        lemma_skip_token(s, from + 1);
    }
}

/// Skip whitespace, starting at `from`.
pub fn skip_ws(v: &Vec<u8>, from: usize) -> (r: usize)
    requires
        from <= v@.len(),
    ensures
        r == skip_ws_spec(v@, from as int),
        from <= r <= v@.len(),
{
    proof {
        lemma_skip_ws(v@, from as int);
    }
    let mut i: usize = from;
    while i < v.len() && is_ws_exec(v[i])
        invariant
            from <= i <= v@.len(),
            skip_ws_spec(v@, from as int) == skip_ws_spec(v@, i as int),
        decreases v@.len() - i,
    {
        proof {
            assert(skip_ws_spec(v@, i as int) == skip_ws_spec(v@, i + 1));
        }
        i = i + 1;
    }
    proof {
        assert(skip_ws_spec(v@, i as int) == i);
        lemma_skip_ws(v@, from as int);
    }
    i
}

/// Skip one token (a maximal run of non-whitespace), starting at `from`.
pub fn skip_token(v: &Vec<u8>, from: usize) -> (r: usize)
    requires
        from <= v@.len(),
    ensures
        r == skip_token_spec(v@, from as int),
        from <= r <= v@.len(),
{
    proof {
        lemma_skip_token(v@, from as int);
    }
    let mut i: usize = from;
    while i < v.len() && !is_ws_exec(v[i])
        invariant
            from <= i <= v@.len(),
            skip_token_spec(v@, from as int) == skip_token_spec(v@, i as int),
        decreases v@.len() - i,
    {
        proof {
            assert(skip_token_spec(v@, i as int) == skip_token_spec(v@, i + 1));
        }
        i = i + 1;
    }
    proof {
        assert(skip_token_spec(v@, i as int) == i);
        lemma_skip_token(v@, from as int);
    }
    i
}

/// Whether `b` is an in-line separator (space or tab).
pub fn is_ws_exec(b: u8) -> (r: bool)
    ensures
        r == is_ws(b),
{
    b == 32 || b == 9
}

/// Last index `<= till` such that every byte in front of it up to `till` is
/// whitespace; scans backwards from `till`.
pub open spec fn rskip_ws_spec(s: Seq<u8>, till: int) -> int
    decreases till when 0 <= till <= s.len()
{
    if till > 0 && is_ws(s[till - 1]) {
        rskip_ws_spec(s, till - 1)
    } else {
        till
    }
}

/// `s` with leading and trailing whitespace removed.
pub open spec fn trim_spec(s: Seq<u8>) -> Seq<u8> {
    let a = skip_ws_spec(s, 0);
    let b = rskip_ws_spec(s, s.len() as int);
    if a <= b {
        s.subrange(a, b)
    } else {
        Seq::empty()
    }
}

/// Copy of `v[lo..hi]`.
pub fn subvec(v: &Vec<u8>, lo: usize, hi: usize) -> (r: Vec<u8>)
    requires
        lo <= hi <= v@.len(),
    ensures
        r@ == v@.subrange(lo as int, hi as int),
{
    let mut r: Vec<u8> = Vec::new();
    let mut i: usize = lo;
    while i < hi
        invariant
            lo <= i <= hi <= v@.len(),
            r@ == v@.subrange(lo as int, i as int),
        decreases hi - i,
    {
        r.push(v[i]);
        proof {
            assert(r@ =~= v@.subrange(lo as int, i + 1));
        }
        i = i + 1;
    }
    r
}

/// Copy of `v[lo..hi]` with surrounding whitespace removed.
pub fn trim_range(v: &Vec<u8>, lo: usize, hi: usize) -> (r: Vec<u8>)
    requires
        lo <= hi <= v@.len(),
    ensures
        r@ == trim_spec(v@.subrange(lo as int, hi as int)),
{
    let s = subvec(v, lo, hi);
    let a = skip_ws(&s, 0);
    let mut b: usize = s.len();
    proof {
        lemma_skip_ws(s@, 0);
    }
    while b > 0 && is_ws_exec(s[b - 1])
        invariant
            0 <= b <= s@.len(),
            rskip_ws_spec(s@, s@.len() as int) == rskip_ws_spec(s@, b as int),
        decreases b,
    {
        proof {
            assert(rskip_ws_spec(s@, b as int) == rskip_ws_spec(s@, b - 1));
        }
        b = b - 1;
    }
    proof {
        assert(rskip_ws_spec(s@, b as int) == b);
    }
    if a <= b {
        subvec(&s, a, b)
    } else {
        Vec::new()
    }
}

/// ASCII lowercase of one byte.
pub open spec fn lower_byte(b: u8) -> u8 {
    if 65 <= b <= 90 {
        (b + 32) as u8
    } else {
        b
    }
}

/// ASCII lowercase, byte by byte.
pub open spec fn lower_spec(s: Seq<u8>) -> Seq<u8> {
    Seq::new(s.len(), |i: int| lower_byte(s[i]))
}

/// ASCII-lowercase a byte string.
pub fn to_lower(v: &Vec<u8>) -> (r: Vec<u8>)
    ensures
        r@ == lower_spec(v@),
{
    let mut r: Vec<u8> = Vec::new();
    let mut i: usize = 0;
    while i < v.len()
        invariant
            0 <= i <= v@.len(),
            r@ == lower_spec(v@).take(i as int),
        decreases v@.len() - i,
    {
        let b = v[i];
        if 65 <= b && b <= 90 {
            r.push(b + 32);
        } else {
            r.push(b);
        }
        proof {
            assert(r@ =~= lower_spec(v@).take(i + 1));
        }
        i = i + 1;
    }
    proof {
        assert(lower_spec(v@).take(v@.len() as int) =~= lower_spec(v@));
    }
    r
}

/// Append all of `src` to `out`.
pub fn append_bytes(out: &mut Vec<u8>, src: &Vec<u8>)
    ensures
        final(out)@ == old(out)@ + src@,
{
    let mut i: usize = 0;
    while i < src.len()
        invariant
            0 <= i <= src@.len(),
            out@ == old(out)@ + src@.take(i as int),
        decreases src@.len() - i,
    {
        out.push(src[i]);
        proof {
            assert(out@ =~= old(out)@ + src@.take(i + 1));
        }
        i = i + 1;
    }
    proof {
        assert(old(out)@ + src@.take(src@.len() as int) =~= old(out)@ + src@);
    }
}

/// Byte-wise equality of two byte strings.
pub fn bytes_eq(a: &Vec<u8>, b: &Vec<u8>) -> (r: bool)
    ensures
        r == (a@ == b@),
{
    if a.len() != b.len() {
        return false;
    }
    let mut i: usize = 0;
    while i < a.len()
        invariant
            0 <= i <= a@.len(),
            a@.len() == b@.len(),
            forall|j: int| 0 <= j < i ==> a@[j] == b@[j],
        decreases a@.len() - i,
    {
        if a[i] != b[i] {
            return false;
        }
        i = i + 1;
    }
    proof {
        assert(a@ =~= b@);
    }
    true
}

/// Index of the first occurrence of `b` at or after `from`, if any.
pub open spec fn find_byte(s: Seq<u8>, from: int, b: u8) -> Option<int>
    decreases s.len() - from when from >= 0
{
    if from < s.len() {
        if s[from] == b {
            Some(from)
        } else {
            find_byte(s, from + 1, b)
        }
    } else {
        None
    }
}

/// `find_byte` returns the first occurrence of `b` at or after `from`.
pub proof fn lemma_find_byte(s: Seq<u8>, from: int, b: u8)
    requires
        0 <= from,
    ensures
        match find_byte(s, from, b) {
            Some(i) => from <= i < s.len() && s[i] == b && forall|j: int|
                from <= j < i ==> s[j] != b,
            None => forall|j: int| from <= j < s.len() ==> s[j] != b,
        },
    decreases s.len() - from,
{
    if from < s.len() && s[from] != b {
        lemma_find_byte(s, from + 1, b);
    }
}

/// Find the first occurrence of `b` at or after `from` in `v`.
pub fn find_byte_from(v: &Vec<u8>, from: usize, b: u8) -> (r: Option<usize>)
    requires
        from <= v@.len(),
    ensures
        match r {
            Some(i) => find_byte(v@, from as int, b) == Some(i as int) && from <= i && i
                < v@.len(),
            None => find_byte(v@, from as int, b) is None,
        },
{
    let mut i: usize = from;
    while i < v.len()
        invariant
            from <= i <= v@.len(),
            forall|j: int| from <= j < i ==> v@[j] != b,
        decreases v@.len() - i,
    {
        if v[i] == b {
            proof {
                lemma_find_byte(v@, from as int, b);
                match find_byte(v@, from as int, b) {
                    Some(k) => {
                        assert(!(k < i) && !(i < k));
                    },
                    None => {
                        assert(false);
                    },
                }
            }
            return Some(i);
        }
        i = i + 1;
    }
    proof {
        lemma_find_byte(v@, from as int, b);
        if let Some(k) = find_byte(v@, from as int, b) {
            assert(false);
        }
    }
    None
}

/// ASCII decimal digit.
pub open spec fn is_digit(b: u8) -> bool {
    48 <= b <= 57
}

pub open spec fn all_digits(s: Seq<u8>) -> bool {
    forall|i: int| 0 <= i < s.len() ==> is_digit(#[trigger] s[i])
}

/// Numeric value of a digit string, most significant digit first.
pub open spec fn dec_value(s: Seq<u8>) -> nat
    decreases s.len(),
{
    if s.len() == 0 {
        0
    } else {
        dec_value(s.drop_last()) * 10 + (s.last() - 48) as nat
    }
}

/// A longer digit string never has a smaller value.
pub proof fn lemma_dec_value_prefix(s: Seq<u8>, i: int)
    requires
        0 <= i <= s.len(),
    ensures
        dec_value(s.take(i)) <= dec_value(s),
    decreases s.len() - i,
{
    if i < s.len() {
        lemma_dec_value_prefix(s, i + 1);
        assert(s.take(i + 1).drop_last() =~= s.take(i));
        assert(dec_value(s.take(i)) <= dec_value(s.take(i + 1)));
    } else {
        assert(s.take(i) =~= s);
    }
}

/// The declared `content-length` of a header value: the value of the digit
/// string, provided the string is non-empty, all digits, and fits in `usize`;
/// anything else is unparseable.
pub open spec fn parse_len_spec(s: Seq<u8>) -> Option<nat> {
    if s.len() > 0 && all_digits(s) && dec_value(s) <= usize::MAX {
        Some(dec_value(s))
    } else {
        None
    }
}

/// Parse a decimal byte string as a length.
pub fn parse_len(v: &Vec<u8>) -> (r: Option<usize>)
    ensures
        match r {
            Some(n) => parse_len_spec(v@) == Some(n as nat),
            None => parse_len_spec(v@) is None,
        },
{
    if v.len() == 0 {
        return None;
    }
    let mut acc: usize = 0;
    let mut i: usize = 0;
    while i < v.len()
        invariant
            0 <= i <= v@.len(),
            all_digits(v@.take(i as int)),
            acc == dec_value(v@.take(i as int)),
        decreases v@.len() - i,
    {
        let b = v[i];
        if b < 48 || b > 57 {
            proof {
                assert(!is_digit(v@[i as int]));
            }
            return None;
        }
        let d = (b - 48) as usize;
        if acc > (usize::MAX - d) / 10 {
            proof {
                assert(acc * 10 + d > usize::MAX) by (nonlinear_arith)
                    requires
                        acc > (usize::MAX - d) / 10,
                        d <= 9,
                ;
                assert(v@.take(i + 1).drop_last() =~= v@.take(i as int));
                assert(dec_value(v@.take(i + 1)) > usize::MAX);
                lemma_dec_value_prefix(v@, i + 1);
            }
            return None;
        }
        proof {
            assert(acc * 10 + d <= usize::MAX) by (nonlinear_arith)
                requires
                    acc <= (usize::MAX - d) / 10,
                    d <= 9,
            ;
            assert(v@.take(i + 1).drop_last() =~= v@.take(i as int));
        }
        acc = acc * 10 + d;
        i = i + 1;
    }
    proof {
        assert(v@.take(v@.len() as int) =~= v@);
    }
    Some(acc)
}

/// Decimal rendering of `n`, most significant digit first, no leading zeros.
pub open spec fn dec_digits(n: nat) -> Seq<u8>
    decreases n,
{
    if n < 10 {
        seq![(n + 48) as u8]
    } else {
        dec_digits(n / 10).push((n % 10 + 48) as u8)
    }
}

/// Append the decimal rendering of `n` to `out`.
pub fn push_decimal(n: usize, out: &mut Vec<u8>)
    ensures
        final(out)@ == old(out)@ + dec_digits(n as nat),
    decreases n,
{
    if n >= 10 {
        push_decimal(n / 10, out);
        out.push((n % 10) as u8 + 48);
        proof {
            assert(out@ =~= old(out)@ + dec_digits(n as nat));
        }
    } else {
        out.push(n as u8 + 48);
        proof {
            assert(out@ =~= old(out)@ + dec_digits(n as nat));
        }
    }
}

/// `p` is a prefix of `v`.
pub open spec fn has_prefix_spec(v: Seq<u8>, p: Seq<u8>) -> bool {
    p.len() <= v.len() && v.subrange(0, p.len() as int) == p
}

pub fn has_prefix(v: &Vec<u8>, p: &Vec<u8>) -> (r: bool)
    ensures
        r == has_prefix_spec(v@, p@),
{
    if p.len() > v.len() {
        return false;
    }
    let mut i: usize = 0;
    while i < p.len()
        invariant
            0 <= i <= p@.len() <= v@.len(),
            forall|j: int| 0 <= j < i ==> v@[j] == p@[j],
        decreases p@.len() - i,
    {
        if v[i] != p[i] {
            proof {
                assert(v@.subrange(0, p@.len() as int)[i as int] != p@[i as int]);
            }
            return false;
        }
        i = i + 1;
    }
    proof {
        assert(v@.subrange(0, p@.len() as int) =~= p@);
    }
    true
}

/// `n` occurs somewhere in `h` as a contiguous run.
pub open spec fn contains_seq(h: Seq<u8>, n: Seq<u8>) -> bool {
    exists|i: int|
        0 <= i && i + n.len() <= h.len() && #[trigger] h.subrange(i, i + n.len() as int) == n
}

/// Whether the needle `n` occurs anywhere in `h`.
pub fn contains_bytes(h: &Vec<u8>, n: &Vec<u8>) -> (r: bool)
    ensures
        r == contains_seq(h@, n@),
{
    if n.len() > h.len() {
        proof {
            if contains_seq(h@, n@) {
                let w = choose|k: int|
                    0 <= k && k + n@.len() <= h@.len() && #[trigger] h@.subrange(
                        k,
                        k + n@.len() as int,
                    ) == n@;
                assert(false);
            }
        }
        return false;
    }
    let mut i: usize = 0;
    while i <= h.len() - n.len()
        invariant
            n@.len() <= h@.len(),
            0 <= i <= h@.len() - n@.len() + 1,
            forall|k: int|
                0 <= k < i ==> #[trigger] h@.subrange(k, k + n@.len() as int) != n@,
        decreases h@.len() + 1 - n@.len() - i,
    {
        let window = subvec(h, i, i + n.len());
        if bytes_eq(&window, n) {
            return true;
        }
        if i == h.len() - n.len() {
            proof {
                if contains_seq(h@, n@) {
                    let w = choose|k: int|
                        0 <= k && k + n@.len() <= h@.len() && #[trigger] h@.subrange(
                            k,
                            k + n@.len() as int,
                        ) == n@;
                    assert(w == i || w < i);
                    assert(false);
                }
            }
            return false;
        }
        i = i + 1;
    }
    proof {
        if contains_seq(h@, n@) {
            let w = choose|k: int|
                0 <= k && k + n@.len() <= h@.len() && #[trigger] h@.subrange(
                    k,
                    k + n@.len() as int,
                ) == n@;
            assert(h@.subrange(w, w + n@.len() as int) != n@);
            assert(false);
        }
    }
    false
}

} // verus!
