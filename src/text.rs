use vstd::prelude::*;
use vstd::utf8::*;
use vstd::string::StringSliceAdditionalSpecFns;

verus! {

/// The ASCII digit for `d < 10`.
pub open spec fn digit_char(d: nat) -> char {
    if d == 0 { '0' }
    else if d == 1 { '1' }
    else if d == 2 { '2' }
    else if d == 3 { '3' }
    else if d == 4 { '4' }
    else if d == 5 { '5' }
    else if d == 6 { '6' }
    else if d == 7 { '7' }
    else if d == 8 { '8' }
    else { '9' }
}

/// The decimal text of `n`, without sign or leading zeros.
pub open spec fn decimal(n: nat) -> Seq<char>
    decreases n,
{
    if n < 10 {
        seq![digit_char(n)]
    } else {
        decimal(n / 10).push(digit_char(n % 10))
    }
}

fn digit_str(d: u64) -> (r: &'static str)
    requires
        d < 10,
    ensures
        r@ == seq![digit_char(d as nat)],
{
    proof {
        reveal_strlit("0");
        reveal_strlit("1");
        reveal_strlit("2");
        reveal_strlit("3");
        reveal_strlit("4");
        reveal_strlit("5");
        reveal_strlit("6");
        reveal_strlit("7");
        reveal_strlit("8");
        reveal_strlit("9");
    }
    if d == 0 { "0" }
    else if d == 1 { "1" }
    else if d == 2 { "2" }
    else if d == 3 { "3" }
    else if d == 4 { "4" }
    else if d == 5 { "5" }
    else if d == 6 { "6" }
    else if d == 7 { "7" }
    else if d == 8 { "8" }
    else { "9" }
}

/// Renders `n` in decimal.
pub fn decimal_text(n: u64) -> (r: String)
    ensures
        r@ == decimal(n as nat),
    decreases n,
{
    if n < 10 {
        digit_str(n).to_owned()
    } else {
        let mut s = decimal_text(n / 10);
        s.append(digit_str(n % 10));
        s
    }
}

/// The value of an ASCII decimal digit.
pub open spec fn digit_value(c: char) -> nat {
    (c as u32 - '0' as u32) as nat
}

pub open spec fn is_digit(c: char) -> bool {
    '0' <= c && c <= '9'
}

/// The value of a run of decimal digits (0 for none).
pub open spec fn digits_value(d: Seq<char>) -> nat
    decreases d.len(),
{
    if d.len() == 0 {
        0
    } else {
        digits_value(d.drop_last()) * 10 + digit_value(d.last())
    }
}

/// Where the digits of an unsigned integer text start: after one optional `+`.
pub open spec fn digits_start(s: Seq<char>) -> int {
    if s.len() > 0 && s[0] == '+' { 1 } else { 0 }
}

/// What std's `str::parse::<u64>` gives: an optional `+`, then one or more
/// ASCII digits whose value fits in a `u64`; anything else fails.
pub open spec fn parsed_u64(s: Seq<char>) -> Option<u64> {
    let d = s.subrange(digits_start(s), s.len() as int);
    if d.len() > 0 && (forall|i: int| 0 <= i < d.len() ==> is_digit(#[trigger] d[i]))
        && digits_value(d) <= u64::MAX {
        Some(digits_value(d) as u64)
    } else {
        None
    }
}

/// Parses an unsigned decimal integer as std's `str::parse::<u64>` does.
pub fn parse_u64(s: &str) -> (r: Option<u64>)
    ensures
        r == parsed_u64(s@),
{
    let ghost start = digits_start(s@);
    let mut acc: u64 = 0;
    let mut all_digits = true;
    let mut over = false;
    let mut first = true;
    let mut any = false;
    for c in it: s.chars()
        invariant
            it.seq() == s@,
            start == digits_start(s@),
            0 <= start <= 1,
            first == (it.index() == 0),
            any == (it.index() > start),
            it.index() <= start ==> !over && acc == 0,
            all_digits == forall|i: int| start <= i < it.index() ==> is_digit(#[trigger] s@[i]),
            all_digits && !over && it.index() >= start ==> acc == digits_value(
                s@.subrange(start, it.index()),
            ),
            all_digits && over && it.index() >= start ==> digits_value(
                s@.subrange(start, it.index()),
            ) > u64::MAX,
    {
        let ghost k = it.index();
        proof { assert(c == s@[k]); }
        if first && c == '+' {
            proof {
                assert(start == 1);
                assert(s@.subrange(start, k + 1) =~= Seq::<char>::empty());
            }
        } else {
            proof {
                assert(k >= start);
                let prev = s@.subrange(start, k);
                let next = s@.subrange(start, k + 1);
                assert(next.drop_last() =~= prev);
                assert(next.last() == c);
                assert(digits_value(next) == digits_value(prev) * 10 + digit_value(c));
            }
            if '0' <= c && c <= '9' {
                let d = (c as u32 - '0' as u32) as u64;
                if !over {
                    if acc > (u64::MAX - d) / 10 {
                        over = true;
                        proof {
                            assert(acc * 10 + d > u64::MAX) by (nonlinear_arith)
                                requires acc > (u64::MAX - d) / 10, d <= 9;
                        }
                    } else {
                        proof {
                            assert(acc * 10 + d <= u64::MAX) by (nonlinear_arith)
                                requires acc <= (u64::MAX - d) / 10, d <= 9;
                        }
                        acc = acc * 10 + d;
                    }
                } else {
                    proof {
                        let prev = s@.subrange(start, k);
                        assert(digits_value(prev) * 10 >= digits_value(prev)) by (nonlinear_arith);
                    }
                }
            } else {
                all_digits = false;
            }
            any = true;
        }
        first = false;
    }
    proof {
        let d = s@.subrange(start, s@.len() as int);
        if all_digits {
            assert forall|i: int| 0 <= i < d.len() implies is_digit(#[trigger] d[i]) by {
                assert(is_digit(s@[start + i]));
            }
        } else {
            let j = choose|j: int| start <= j < s@.len() && !is_digit(#[trigger] s@[j]);
            assert(!is_digit(d[j - start]));
        }
    }
    if !any || !all_digits || over {
        None
    } else {
        Some(acc)
    }
}


/// Lexicographic order on byte strings, a proper prefix first.
pub open spec fn bytes_lt(a: Seq<u8>, b: Seq<u8>) -> bool
    decreases a.len(),
{
    if a.len() == 0 {
        b.len() > 0
    } else if b.len() == 0 {
        false
    } else if a[0] != b[0] {
        a[0] < b[0]
    } else {
        bytes_lt(a.drop_first(), b.drop_first())
    }
}

/// The order of `String` keys: their UTF-8 bytes, compared lexicographically.
pub open spec fn key_lt(a: Seq<char>, b: Seq<char>) -> bool {
    bytes_lt(encode_utf8(a), encode_utf8(b))
}

pub proof fn lemma_bytes_lt_irreflexive(a: Seq<u8>)
    ensures
        !bytes_lt(a, a),
    decreases a.len(),
{
    if a.len() > 0 {
        lemma_bytes_lt_irreflexive(a.drop_first());
    }
}

pub proof fn lemma_bytes_lt_transitive(a: Seq<u8>, b: Seq<u8>, c: Seq<u8>)
    requires
        bytes_lt(a, b),
        bytes_lt(b, c),
    ensures
        bytes_lt(a, c),
    decreases a.len(),
{
    if a.len() > 0 && b.len() > 0 && c.len() > 0 && a[0] == b[0] && b[0] == c[0] {
        lemma_bytes_lt_transitive(a.drop_first(), b.drop_first(), c.drop_first());
    }
}

pub proof fn lemma_bytes_lt_total(a: Seq<u8>, b: Seq<u8>)
    requires
        a != b,
    ensures
        bytes_lt(a, b) || bytes_lt(b, a),
    decreases a.len(),
{
    if a.len() > 0 && b.len() > 0 && a[0] == b[0] {
        if a.drop_first() == b.drop_first() {
            assert(a =~= seq![a[0]] + a.drop_first());
            assert(b =~= seq![b[0]] + b.drop_first());
        }
        lemma_bytes_lt_total(a.drop_first(), b.drop_first());
    } else if a.len() == 0 && b.len() == 0 {
        assert(a =~= b);
    }
}

pub proof fn lemma_bytes_lt_asymmetric(a: Seq<u8>, b: Seq<u8>)
    requires
        bytes_lt(a, b),
    ensures
        !bytes_lt(b, a),
{
    if bytes_lt(b, a) {
        lemma_bytes_lt_transitive(a, b, a);
        lemma_bytes_lt_irreflexive(a);
    }
}

pub proof fn lemma_encode_injective(a: Seq<char>, b: Seq<char>)
    requires
        encode_utf8(a) == encode_utf8(b),
    ensures
        a == b,
{
    encode_utf8_decode_utf8(a);
    encode_utf8_decode_utf8(b);
}

/// `key_lt` is a strict total order.
pub proof fn lemma_key_order(a: Seq<char>, b: Seq<char>, c: Seq<char>)
    ensures
        !key_lt(a, a),
        key_lt(a, b) && key_lt(b, c) ==> key_lt(a, c),
        a != b ==> key_lt(a, b) || key_lt(b, a),
        key_lt(a, b) ==> !key_lt(b, a),
{
    lemma_bytes_lt_irreflexive(encode_utf8(a));
    if key_lt(a, b) && key_lt(b, c) {
        lemma_bytes_lt_transitive(encode_utf8(a), encode_utf8(b), encode_utf8(c));
    }
    if a != b {
        if encode_utf8(a) == encode_utf8(b) {
            lemma_encode_injective(a, b);
        }
        lemma_bytes_lt_total(encode_utf8(a), encode_utf8(b));
    }
    if key_lt(a, b) {
        lemma_bytes_lt_asymmetric(encode_utf8(a), encode_utf8(b));
    }
}

/// Compares two keys in `String` order: negative, zero or positive.
pub fn compare_keys(a: &str, b: &str) -> (r: i8)
    ensures
        r < 0 <==> key_lt(a@, b@),
        r == 0 <==> a@ == b@,
        r > 0 <==> key_lt(b@, a@),
{
    let x = a.as_bytes();
    let y = b.as_bytes();
    let ghost ex = encode_utf8(a@);
    let ghost ey = encode_utf8(b@);
    proof { lemma_key_order(a@, b@, a@); lemma_key_order(b@, a@, b@); }
    let mut i: usize = 0;
    proof {
        assert(ex.skip(0) =~= ex);
        assert(ey.skip(0) =~= ey);
    }
    while i < x.len() && i < y.len()
        invariant
            ex == encode_utf8(a@),
            ey == encode_utf8(b@),
            x@ == ex,
            y@ == ey,
            i <= x@.len(),
            i <= y@.len(),
            x@.subrange(0, i as int) == y@.subrange(0, i as int),
            bytes_lt(ex, ey) == bytes_lt(ex.skip(i as int), ey.skip(i as int)),
            bytes_lt(ey, ex) == bytes_lt(ey.skip(i as int), ex.skip(i as int)),
        decreases x@.len() - i,
    {
        let p = x[i];
        let q = y[i];
        if p != q {
            proof {
                assert(p == ex[i as int]);
                assert(q == ey[i as int]);
                assert(ex.skip(i as int)[0] == p);
                assert(ey.skip(i as int)[0] == q);
                assert(ex != ey);
                assert(a@ != b@);
                let sx = ex.skip(i as int);
                let sy = ey.skip(i as int);
                assert(sx.len() > 0 && sy.len() > 0);
                assert(bytes_lt(sx, sy) == (p < q));
                assert(bytes_lt(sy, sx) == (q < p));
            }
            if p < q {
                return -1;
            } else {
                return 1;
            }
        }
        proof {
            assert(ex.skip(i as int).drop_first() =~= ex.skip(i + 1));
            assert(ey.skip(i as int).drop_first() =~= ey.skip(i + 1));
            assert(x@.subrange(0, i + 1) =~= x@.subrange(0, i as int).push(p));
            assert(y@.subrange(0, i + 1) =~= y@.subrange(0, i as int).push(q));
        }
        i = i + 1;
    }
    if i == x.len() && i == y.len() {
        proof {
            assert(x@ =~= x@.subrange(0, i as int));
            assert(y@ =~= y@.subrange(0, i as int));
            lemma_encode_injective(a@, b@);
        }
        0
    } else {
        proof {
            if a@ == b@ {
                assert(false);
            }
        }
        if i == x.len() {
            -1
        } else {
            1
        }
    }
}

pub proof fn lemma_encode_concat(a: Seq<char>, b: Seq<char>)
    ensures
        encode_utf8(a + b) == encode_utf8(a) + encode_utf8(b),
    decreases a.len(),
{
    if a.len() == 0 {
        assert(a + b =~= b);
        assert(encode_utf8(a) + encode_utf8(b) =~= encode_utf8(b));
    } else {
        assert((a + b).drop_first() =~= a.drop_first() + b);
        lemma_encode_concat(a.drop_first(), b);
        assert(encode_utf8(a + b) =~= encode_utf8(a) + encode_utf8(b));
    }
}

pub proof fn lemma_char_boundary_after(a: Seq<char>, b: Seq<char>)
    ensures
        is_char_boundary(encode_utf8(a + b), encode_utf8(a).len() as int),
    decreases a.len(),
{
    let bytes = encode_utf8(a + b);
    encode_utf8_valid_utf8(a + b);
    if a.len() > 0 {
        let ab = a + b;
        encode_utf8_first_scalar(ab);
        assert(ab.drop_first() =~= a.drop_first() + b);
        assert(pop_first_scalar(bytes) =~= encode_utf8(ab.drop_first()));
        lemma_char_boundary_after(a.drop_first(), b);
        encode_utf8_valid_utf8(ab.drop_first());
    }
}

pub proof fn lemma_encode_single(c: char)
    ensures
        encode_utf8(seq![c]) == encode_scalar(c as u32),
{
    char_is_scalar(c);
    assert(seq![c].drop_first() =~= Seq::<char>::empty());
    assert(encode_utf8(Seq::<char>::empty()) =~= Seq::<u8>::empty());
    assert(encode_utf8(seq![c]) =~= encode_scalar(c as u32) + encode_utf8(seq![c].drop_first()));
    assert(encode_utf8(seq![c]) =~= encode_scalar(c as u32));
}

/// The number of bytes in the UTF-8 encoding of `c`.
fn char_width(c: char) -> (r: usize)
    ensures
        r == encode_scalar(c as u32).len(),
{
    proof { char_is_scalar(c); }
    let u = c as u32;
    if u <= 0x7f {
        1
    } else if u <= 0x7ff {
        2
    } else if u <= 0xffff {
        3
    } else {
        4
    }
}

pub proof fn lemma_encode_len(s: Seq<char>)
    ensures
        encode_utf8(s).len() >= s.len(),
    decreases s.len(),
{
    if s.len() > 0 {
        char_is_scalar(s[0]);
        lemma_encode_len(s.drop_first());
    }
}

/// The number of bytes that the first `n` characters of `s` take.
fn byte_offset(s: &str, n: usize) -> (r: usize)
    requires
        n <= s@.len(),
    ensures
        r == encode_utf8(s@.take(n as int)).len(),
        is_char_boundary(encode_utf8(s@), r as int),
        r <= encode_utf8(s@).len(),
{
    let total = s.as_bytes().len();
    let mut mid: usize = 0;
    let mut taken: usize = 0;
    for c in it: s.chars()
        invariant
            it.seq() == s@,
            n <= s@.len(),
            total == encode_utf8(s@).len(),
            taken == if it.index() < n { it.index() } else { n as int },
            mid == encode_utf8(s@.take(taken as int)).len(),
    {
        let ghost k = it.index();
        if taken < n {
            proof {
                assert(taken == k);
                let pre = s@.take(k);
                assert(s@.take(k + 1) =~= pre + seq![c]);
                lemma_encode_concat(pre, seq![c]);
                lemma_encode_single(c);
                assert(s@ =~= s@.take(k + 1) + s@.skip(k + 1));
                lemma_encode_concat(s@.take(k + 1), s@.skip(k + 1));
            }
            mid = mid + char_width(c);
            taken = taken + 1;
        }
    }
    proof {
        let m = n as int;
        assert(taken == n);
        assert(s@ =~= s@.take(m) + s@.skip(m));
        lemma_encode_concat(s@.take(m), s@.skip(m));
        lemma_char_boundary_after(s@.take(m), s@.skip(m));
    }
    mid
}

/// The characters of `s` from position `a` up to `b`.
pub fn substring(s: &str, a: usize, b: usize) -> (r: String)
    requires
        a <= b <= s@.len(),
    ensures
        r@ == s@.subrange(a as int, b as int),
{
    let end = byte_offset(s, b);
    let start = byte_offset(s, a);
    let (head, _tail) = s.split_at(end);
    proof {
        assert(head.spec_bytes() =~= encode_utf8(s@.take(b as int))) by {
            assert(s@ =~= s@.take(b as int) + s@.skip(b as int));
            lemma_encode_concat(s@.take(b as int), s@.skip(b as int));
        }
        lemma_encode_injective(head@, s@.take(b as int));
        let x = s@.take(a as int);
        let y = s@.subrange(a as int, b as int);
        assert(head@ =~= x + y);
        lemma_encode_concat(x, y);
        lemma_char_boundary_after(x, y);
        assert(x =~= head@.take(a as int));
    }
    let (_lead, mid) = head.split_at(start);
    proof {
        let x = s@.take(a as int);
        let y = s@.subrange(a as int, b as int);
        lemma_encode_concat(x, y);
        assert(mid.spec_bytes() =~= encode_utf8(y));
        lemma_encode_injective(mid@, y);
    }
    mid.to_owned()
}

/// The first `n` characters of `s`, or all of `s` when it is shorter.
pub fn prefix_chars(s: &str, n: usize) -> (r: String)
    ensures
        r@ == s@.take(if n < s@.len() { n as int } else { s@.len() as int }),
{
    proof { lemma_encode_len(s@); }
    let total = s.as_bytes().len();
    let len: usize = char_count(s, total);
    let m = if n < len { n } else { len };
    let r = substring(s, 0, m);
    proof { assert(s@.subrange(0, m as int) =~= s@.take(m as int)); }
    r
}

/// The number of characters of `s`, whose encoding takes `total` bytes.
fn char_count(s: &str, total: usize) -> (r: usize)
    requires
        total == encode_utf8(s@).len(),
    ensures
        r == s@.len(),
{
    proof { lemma_encode_len(s@); }
    let mut count: usize = 0;
    for _c in it: s.chars()
        invariant
            it.seq() == s@,
            total == encode_utf8(s@).len(),
            s@.len() <= total,
            count == it.index(),
    {
        count = count + 1;
    }
    count
}

/// `s` without its leading `/` characters.
pub open spec fn strip_leading_slashes(s: Seq<char>) -> Seq<char>
    decreases s.len(),
{
    if s.len() > 0 && s[0] == '/' {
        strip_leading_slashes(s.drop_first())
    } else {
        s
    }
}

/// `s` without its trailing `/` characters.
pub open spec fn strip_trailing_slashes(s: Seq<char>) -> Seq<char>
    decreases s.len(),
{
    if s.len() > 0 && s.last() == '/' {
        strip_trailing_slashes(s.drop_last())
    } else {
        s
    }
}

/// `s` without `/` at either end, as std's `trim_matches('/')` gives it.
pub open spec fn trim_slashes(s: Seq<char>) -> Seq<char> {
    strip_trailing_slashes(strip_leading_slashes(s))
}

proof fn lemma_strip_leading(s: Seq<char>, lo: int)
    requires
        0 <= lo <= s.len(),
        forall|i: int| 0 <= i < lo ==> s[i] == '/',
        lo == s.len() || s[lo] != '/',
    ensures
        strip_leading_slashes(s) == s.skip(lo),
    decreases lo,
{
    if lo == 0 {
        assert(s.skip(0) =~= s);
    } else {
        assert(s.drop_first().skip(lo - 1) =~= s.skip(lo));
        lemma_strip_leading(s.drop_first(), lo - 1);
    }
}

proof fn lemma_strip_trailing(t: Seq<char>, m: int)
    requires
        0 <= m <= t.len(),
        forall|i: int| m <= i < t.len() ==> t[i] == '/',
        m == 0 || t[m - 1] != '/',
    ensures
        strip_trailing_slashes(t) == t.take(m),
    decreases t.len() - m,
{
    if m == t.len() {
        assert(t.take(m) =~= t);
    } else {
        assert(t.drop_last().take(m) =~= t.take(m));
        lemma_strip_trailing(t.drop_last(), m);
    }
}

/// Removes every leading and trailing `/` of `s`.
pub fn trim_slashes_text(s: &str) -> (r: String)
    ensures
        r@ == trim_slashes(s@),
{
    proof { lemma_encode_len(s@); }
    let total = s.as_bytes().len();
    let mut k: usize = 0;
    let mut lo: usize = 0;
    let mut hi: usize = 0;
    let mut leading = true;
    for c in it: s.chars()
        invariant
            it.seq() == s@,
            total == encode_utf8(s@).len(),
            s@.len() <= total,
            k == it.index(),
            leading ==> lo == k && forall|i: int| 0 <= i < k ==> s@[i] == '/',
            !leading ==> lo < k && s@[lo as int] != '/' && forall|i: int| 0 <= i < lo ==> s@[i]
                == '/',
            !leading ==> lo < hi <= k && s@[hi - 1] != '/' && forall|i: int| hi <= i < k ==> s@[i]
                == '/',
    {
        proof { assert(c == s@[k as int]); }
        if c != '/' {
            if leading {
                lo = k;
                leading = false;
            }
            hi = k + 1;
        } else if leading {
            lo = k + 1;
        }
        k = k + 1;
    }
    if leading {
        proof {
            lemma_strip_leading(s@, s@.len() as int);
            assert(s@.skip(s@.len() as int) =~= Seq::<char>::empty());
        }
        return String::new();
    }
    proof {
        lemma_strip_leading(s@, lo as int);
        let t = s@.skip(lo as int);
        lemma_strip_trailing(t, hi - lo);
        assert(t.take(hi - lo) =~= s@.subrange(lo as int, hi as int));
    }
    substring(s, lo, hi)
}

/// Two texts whose first characters are ASCII and differ are ordered by them.
pub proof fn lemma_ascii_first_order(a: Seq<char>, b: Seq<char>)
    requires
        a.len() > 0,
        b.len() > 0,
        (a[0] as u32) < (b[0] as u32) <= 0x7f,
    ensures
        key_lt(a, b),
{
    assert(a =~= seq![a[0]] + a.drop_first());
    assert(b =~= seq![b[0]] + b.drop_first());
    lemma_encode_concat(seq![a[0]], a.drop_first());
    lemma_encode_concat(seq![b[0]], b.drop_first());
    lemma_encode_single(a[0]);
    lemma_encode_single(b[0]);
    let ea = encode_utf8(a);
    let eb = encode_utf8(b);
    let x = a[0] as u32;
    let y = b[0] as u32;
    assert((x & 0x7f) == x) by (bit_vector)
        requires
            x <= 0x7f,
    ;
    assert((y & 0x7f) == y) by (bit_vector)
        requires
            y <= 0x7f,
    ;
    assert(ea[0] == x as u8);
    assert(eb[0] == y as u8);
    assert((x as u8) < (y as u8));
}

} // verus!
