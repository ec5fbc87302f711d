//! Small string building blocks with exact contracts: decimal rendering of
//! counters, string equality and concatenation.
use vstd::prelude::*;
use vstd::string::StrSliceExecFns;
use vstd::utf8::*;

verus! {

/// The ASCII digit for `d` (which must be below ten).
pub open spec fn digit_char(d: nat) -> char {
    if d == 0 { '0' }
    else if d == 1 { '1' }
    else if d == 2 { '2' }
    else if d == 3 { '3' }
    else if d == 4 { '4' }
    else if d == 5 { '5' }
    else if d == 6 { '6' }
    else if d == 7 { '7' }
    else if d == 8 { '8' }
    else { '9' }
}

/// The decimal representation of `n`, most significant digit first, with no
/// leading zeros (`0` is rendered as a single `0`).
pub open spec fn decimal(n: nat) -> Seq<char>
    decreases n,
{
    if n < 10 {
        seq![digit_char(n)]
    } else {
        decimal(n / 10).push(digit_char(n % 10))
    }
}

proof fn lemma_decimal_nonempty(n: nat)
    ensures
        decimal(n).len() >= 1,
        n >= 10 ==> decimal(n).len() >= 2,
    decreases n,
{
    if n >= 10 {
        lemma_decimal_nonempty(n / 10);
    }
}

proof fn lemma_digit_char_injective(d: nat, e: nat)
    requires
        d < 10,
        e < 10,
        digit_char(d) == digit_char(e),
    ensures
        d == e,
{
}

/// Different numbers have different decimal renderings.
pub proof fn lemma_decimal_injective(n: nat, m: nat)
    requires
        decimal(n) == decimal(m),
    ensures
        n == m,
    decreases n,
{
    lemma_decimal_nonempty(n);
    lemma_decimal_nonempty(m);
    if n < 10 && m < 10 {
        assert(decimal(n) == seq![digit_char(n)]);
        assert(decimal(m) == seq![digit_char(m)]);
        assert(decimal(n)[0] == digit_char(n));
        assert(decimal(m)[0] == digit_char(m));
        lemma_digit_char_injective(n, m);
    } else if n >= 10 && m >= 10 {
        assert(decimal(n).last() == digit_char(n % 10));
        assert(decimal(m).last() == digit_char(m % 10));
        assert(decimal(n).drop_last() =~= decimal(n / 10));
        assert(decimal(m).drop_last() =~= decimal(m / 10));
        lemma_decimal_injective(n / 10, m / 10);
        lemma_digit_char_injective(n % 10, m % 10);
    } else {
        assert(decimal(n).len() != decimal(m).len());
    }
}

/// The number that a string of ASCII decimal digits spells, most
/// significant digit first.
pub open spec fn digits_value(s: Seq<char>) -> nat
    decreases s.len(),
{
    if s.len() == 0 {
        0
    } else {
        digits_value(s.drop_last()) * 10 + ((s.last() as u32) - ('0' as u32)) as nat
    }
}

/// Whether every character of `s` is an ASCII decimal digit.
pub open spec fn all_digits(s: Seq<char>) -> bool {
    forall|i: int| 0 <= i < s.len() ==> '0' <= #[trigger] s[i] <= '9'
}

proof fn lemma_digit_char_value(d: nat)
    requires
        d < 10,
    ensures
        '0' <= digit_char(d) <= '9',
        (digit_char(d) as u32) - ('0' as u32) == d,
{
}

/// `decimal(n)` is the base-10 rendering of `n`: a non-empty string of
/// ASCII digits that spells `n`, with no leading zero unless `n` is zero.
pub proof fn law_decimal_spells_number(n: nat)
    ensures
        decimal(n).len() >= 1,
        all_digits(decimal(n)),
        digits_value(decimal(n)) == n,
        decimal(n)[0] == '0' ==> n == 0,
    decreases n,
{
    if n < 10 {
        lemma_digit_char_value(n);
        assert(decimal(n).drop_last() =~= Seq::<char>::empty());
        assert(digits_value(decimal(n).drop_last()) == 0);
        assert(decimal(n).last() == digit_char(n));
    } else {
        law_decimal_spells_number(n / 10);
        lemma_digit_char_value(n % 10);
        let d = decimal(n);
        assert(d.drop_last() =~= decimal(n / 10));
        assert(d.last() == digit_char(n % 10));
        assert(digits_value(d) == digits_value(decimal(n / 10)) * 10 + n % 10);
        assert((n / 10) * 10 + n % 10 == n) by (nonlinear_arith);
        assert(d[0] == decimal(n / 10)[0]);
        assert forall|i: int| 0 <= i < d.len() implies '0' <= #[trigger] d[i] <= '9' by {
            if i < d.len() - 1 {
                assert(d[i] == decimal(n / 10)[i]);
            }
        }
    }
}

/// Trimming removes exactly the whitespace at both ends: the input is the
/// result with whitespace-only text before and after it, and the result
/// neither starts nor ends with whitespace.
pub proof fn law_trim_removes_only_edge_whitespace(cs: Seq<char>)
    ensures
        exists|a: int, b: int|
            0 <= a <= b <= cs.len() && #[trigger] cs.subrange(a, b) == trim(cs) && (forall|i: int|
                0 <= i < a ==> is_unicode_whitespace(#[trigger] cs[i])) && (forall|i: int|
                b <= i < cs.len() ==> is_unicode_whitespace(#[trigger] cs[i])),
        trim(cs).len() > 0 ==> !is_unicode_whitespace(trim(cs)[0]),
        trim(cs).len() > 0 ==> !is_unicode_whitespace(trim(cs).last()),
{
    let a = lemma_trim_start_ws(cs);
    let t = trim_start(cs);
    let b = lemma_trim_end_ws(t);
    assert(cs.subrange(a, a + b) =~= trim(cs));
    assert forall|i: int| a + b <= i < cs.len() implies is_unicode_whitespace(#[trigger] cs[i]) by {
        assert(cs[i] == t[i - a]);
    }
    if trim(cs).len() > 0 {
        assert(trim(cs)[0] == t[0]);
    }
}

proof fn lemma_trim_start_ws(cs: Seq<char>) -> (k: int)
    ensures
        0 <= k <= cs.len(),
        trim_start(cs) == cs.subrange(k, cs.len() as int),
        forall|i: int| 0 <= i < k ==> is_unicode_whitespace(#[trigger] cs[i]),
        trim_start(cs).len() > 0 ==> !is_unicode_whitespace(trim_start(cs)[0]),
    decreases cs.len(),
{
    if cs.len() > 0 && is_unicode_whitespace(cs[0]) {
        let r = cs.drop_first();
        let k = lemma_trim_start_ws(r);
        assert(r.subrange(k, r.len() as int) =~= cs.subrange(k + 1, cs.len() as int));
        assert forall|i: int| 0 <= i < k + 1 implies is_unicode_whitespace(#[trigger] cs[i]) by {
            if i > 0 {
                assert(cs[i] == r[i - 1]);
            }
        }
        k + 1
    } else {
        assert(cs.subrange(0, cs.len() as int) =~= cs);
        0
    }
}

proof fn lemma_trim_end_ws(cs: Seq<char>) -> (k: int)
    ensures
        0 <= k <= cs.len(),
        trim_end(cs) == cs.subrange(0, k),
        forall|i: int| k <= i < cs.len() ==> is_unicode_whitespace(#[trigger] cs[i]),
        trim_end(cs).len() > 0 ==> !is_unicode_whitespace(trim_end(cs).last()),
        trim_end(cs).len() > 0 ==> trim_end(cs)[0] == cs[0],
    decreases cs.len(),
{
    if cs.len() > 0 && is_unicode_whitespace(cs.last()) {
        let r = cs.drop_last();
        let k = lemma_trim_end_ws(r);
        assert(r.subrange(0, k) =~= cs.subrange(0, k));
        assert forall|i: int| k <= i < cs.len() implies is_unicode_whitespace(#[trigger] cs[i]) by {
            if i < cs.len() - 1 {
                assert(cs[i] == r[i]);
            }
        }
        k
    } else {
        assert(cs.subrange(0, cs.len() as int) =~= cs);
        cs.len() as int
    }
}

fn digit_str(d: u64) -> (s: &'static str)
    requires
        d < 10,
    ensures
        s@ == seq![digit_char(d as nat)],
{
    proof {
        reveal_strlit("0");
        reveal_strlit("1");
        reveal_strlit("2");
        reveal_strlit("3");
        reveal_strlit("4");
        reveal_strlit("5");
        reveal_strlit("6");
        reveal_strlit("7");
        reveal_strlit("8");
        reveal_strlit("9");
    }
    if d == 0 { "0" }
    else if d == 1 { "1" }
    else if d == 2 { "2" }
    else if d == 3 { "3" }
    else if d == 4 { "4" }
    else if d == 5 { "5" }
    else if d == 6 { "6" }
    else if d == 7 { "7" }
    else if d == 8 { "8" }
    else { "9" }
}

/// Appends the decimal rendering of `n` to `out`.
pub fn push_decimal(out: &mut String, n: u64)
    ensures
        final(out)@ == old(out)@ + decimal(n as nat),
    decreases n,
{
    if n >= 10 {
        push_decimal(out, n / 10);
    }
    out.append(digit_str(n % 10));
}

/// Whether `c` has the Unicode `White_Space` property, which is what
/// `char::is_whitespace` tests.
pub open spec fn is_unicode_whitespace(c: char) -> bool {
    let n = c as u32;
    ||| 9 <= n <= 13
    ||| n == 32
    ||| n == 0x85
    ||| n == 0xA0
    ||| n == 0x1680
    ||| 0x2000 <= n <= 0x200A
    ||| n == 0x2028
    ||| n == 0x2029
    ||| n == 0x202F
    ||| n == 0x205F
    ||| n == 0x3000
}

/// `cs` without its leading whitespace.
pub open spec fn trim_start(cs: Seq<char>) -> Seq<char>
    decreases cs.len(),
{
    if cs.len() > 0 && is_unicode_whitespace(cs[0]) {
        trim_start(cs.drop_first())
    } else {
        cs
    }
}

/// `cs` without its trailing whitespace.
pub open spec fn trim_end(cs: Seq<char>) -> Seq<char>
    decreases cs.len(),
{
    if cs.len() > 0 && is_unicode_whitespace(cs.last()) {
        trim_end(cs.drop_last())
    } else {
        cs
    }
}

/// `cs` without leading and trailing whitespace.
pub open spec fn trim(cs: Seq<char>) -> Seq<char> {
    trim_end(trim_start(cs))
}

/// UTF-8 encoding distributes over concatenation.
pub proof fn lemma_encode_utf8_concat(x: Seq<char>, y: Seq<char>)
    ensures
        encode_utf8(x + y) == encode_utf8(x) + encode_utf8(y),
    decreases x.len(),
{
    if x.len() == 0 {
        assert(x + y =~= y);
    } else {
        assert((x + y).drop_first() =~= x.drop_first() + y);
        lemma_encode_utf8_concat(x.drop_first(), y);
        assert(encode_utf8(x + y) =~= encode_utf8(x) + encode_utf8(y));
    }
}

proof fn lemma_trim_start_suffix(cs: Seq<char>) -> (k: int)
    ensures
        0 <= k <= cs.len(),
        trim_start(cs) == cs.subrange(k, cs.len() as int),
    decreases cs.len(),
{
    if cs.len() > 0 && is_unicode_whitespace(cs[0]) {
        let k = lemma_trim_start_suffix(cs.drop_first());
        assert(cs.drop_first().subrange(k, cs.drop_first().len() as int) =~= cs.subrange(
            k + 1,
            cs.len() as int,
        ));
        k + 1
    } else {
        assert(cs.subrange(0, cs.len() as int) =~= cs);
        0
    }
}

proof fn lemma_trim_end_prefix(cs: Seq<char>) -> (k: int)
    ensures
        0 <= k <= cs.len(),
        trim_end(cs) == cs.subrange(0, k),
    decreases cs.len(),
{
    if cs.len() > 0 && is_unicode_whitespace(cs.last()) {
        let k = lemma_trim_end_prefix(cs.drop_last());
        assert(cs.drop_last().subrange(0, k) =~= cs.subrange(0, k));
        k
    } else {
        assert(cs.subrange(0, cs.len() as int) =~= cs);
        cs.len() as int
    }
}

/// Trimming never lengthens the UTF-8 encoding of a text.
pub proof fn lemma_trim_encoded_len(cs: Seq<char>)
    ensures
        encode_utf8(trim(cs)).len() <= encode_utf8(cs).len(),
{
    let a = lemma_trim_start_suffix(cs);
    let t = trim_start(cs);
    let b = lemma_trim_end_prefix(t);
    let mid = cs.subrange(a, a + b);
    assert(trim(cs) =~= mid);
    assert(cs =~= cs.subrange(0, a) + mid + cs.subrange(a + b, cs.len() as int));
    lemma_encode_utf8_concat(cs.subrange(0, a) + mid, cs.subrange(a + b, cs.len() as int));
    lemma_encode_utf8_concat(cs.subrange(0, a), mid);
}

/// How a character's ASCII range reads as a number and as a byte.
pub proof fn lemma_char_ascii(c: char)
    ensures
        '\0' <= c,
        (c as u32) < 128 <==> c <= '\u{7f}',
        c <= '\u{7f}' ==> (c as u8) as u32 == c as u32,
{
}

/// Whether `c` has the Unicode `White_Space` property.
fn is_whitespace_char(c: char) -> (r: bool)
    ensures
        r == is_unicode_whitespace(c),
{
    let n = c as u32;
    (9 <= n && n <= 13) || n == 32 || n == 0x85 || n == 0xA0 || n == 0x1680 || (0x2000 <= n && n
        <= 0x200A) || n == 0x2028 || n == 0x2029 || n == 0x202F || n == 0x205F || n == 0x3000
}

/// `s` without leading and trailing whitespace (characters with the Unicode
/// `White_Space` property), as `str::trim` gives it.
pub fn trim_whitespace(s: &str) -> (r: &str)
    ensures
        r@ == trim(s@),
{
    let n = s.unicode_len();
    let ghost cs = s@;
    assert(cs.subrange(0, n as int) =~= cs);
    let mut i: usize = 0;
    while i < n
        invariant
            n == cs.len(),
            cs == s@,
            i <= n,
            trim_start(cs) == trim_start(cs.subrange(i as int, n as int)),
        ensures
            i <= n,
            trim_start(cs) == cs.subrange(i as int, n as int),
        decreases n - i,
    {
        let c = s.get_char(i);
        let ghost sub = cs.subrange(i as int, n as int);
        assert(sub[0] == c);
        if !is_whitespace_char(c) {
            break;
        }
        assert(sub.drop_first() =~= cs.subrange(i as int + 1, n as int));
        i = i + 1;
    }
    proof {
        if i == n {
            assert(cs.subrange(i as int, n as int) =~= Seq::<char>::empty());
        }
    }
    let mut j: usize = n;
    while j > i
        invariant
            n == cs.len(),
            cs == s@,
            i <= j <= n,
            trim_start(cs) == cs.subrange(i as int, n as int),
            trim(cs) == trim_end(cs.subrange(i as int, j as int)),
        ensures
            i <= j <= n,
            trim(cs) == cs.subrange(i as int, j as int),
        decreases j - i,
    {
        let c = s.get_char(j - 1);
        let ghost sub = cs.subrange(i as int, j as int);
        assert(sub.last() == c);
        if !is_whitespace_char(c) {
            break;
        }
        assert(sub.drop_last() =~= cs.subrange(i as int, j as int - 1));
        j = j - 1;
    }
    proof {
        if j == i {
            assert(cs.subrange(i as int, j as int) =~= Seq::<char>::empty());
        }
    }
    s.substring_char(i, j)
}

/// Whether two strings hold the same characters, compared through their
/// UTF-8 bytes.
pub fn str_eq(a: &str, b: &str) -> (r: bool)
    ensures
        r == (a@ == b@),
{
    let x = a.as_bytes();
    let y = b.as_bytes();
    proof {
        encode_utf8_decode_utf8(a@);
        encode_utf8_decode_utf8(b@);
    }
    assert(x@ == encode_utf8(a@));
    assert(y@ == encode_utf8(b@));
    if x.len() != y.len() {
        return false;
    }
    let mut i: usize = 0;
    while i < x.len()
        invariant
            x@.len() == y@.len(),
            x@ == encode_utf8(a@),
            y@ == encode_utf8(b@),
            i <= x@.len(),
            forall|j: int| 0 <= j < i ==> x@[j] == y@[j],
        decreases x@.len() - i,
    {
        if x[i] != y[i] {
            assert(x@ != y@);
            return false;
        }
        i = i + 1;
    }
    assert(x@ =~= y@);
    true
}

/// A new string holding `prefix` followed by `rest`.
pub fn concat(prefix: &str, rest: &str) -> (r: String)
    ensures
        r@ == prefix@ + rest@,
{
    let mut r = String::from_str(prefix);
    r.append(rest);
    r
}

} // verus!
