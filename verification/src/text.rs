//! Text helpers over the character view of strings: substring search,
//! decimal rendering, the hyphenated form of a 128-bit identifier, and the
//! first line of a text.
use vstd::prelude::*;
use vstd::string::*;

verus! {

/// `needle` occurs in `hay` as a contiguous run of characters.
pub open spec fn is_substring(needle: Seq<char>, hay: Seq<char>) -> bool {
    exists|i: int|
        0 <= i && i + needle.len() <= hay.len() && #[trigger] hay.subrange(i, i + needle.len())
            == needle
}

/// The characters of `s`, in order.
pub fn chars_of(s: &str) -> (v: Vec<char>)
    ensures
        v@ == s@,
{
    let n = s.unicode_len();
    let mut v: Vec<char> = Vec::new();
    let mut i: usize = 0;
    while i < n
        invariant
            i <= n,
            n == s@.len(),
            v@ == s@.take(i as int),
        decreases n - i,
    {
        let c = s.get_char(i);
        v.push(c);
        assert(s@.take(i as int).push(c) =~= s@.take((i + 1) as int));
        i = i + 1;
    }
    assert(s@.take(n as int) =~= s@);
    v
}

/// Whether the run `hay[at..at + needle.len()]` is exactly `needle`.
fn run_equals(hay: &Vec<char>, needle: &Vec<char>, at: usize) -> (b: bool)
    requires
        at + needle@.len() <= hay@.len(),
    ensures
        b == (hay@.subrange(at as int, at + needle@.len()) == needle@),
{
    let n = needle.len();
    let h = hay.len();
    let mut j: usize = 0;
    while j < n
        invariant
            j <= n,
            n == needle@.len(),
            h == hay@.len(),
            at + n <= h,
            forall|t: int| 0 <= t < j ==> hay@[at + t] == needle@[t],
        decreases n - j,
    {
        if hay[at + j] != needle[j] {
            assert(hay@.subrange(at as int, at + needle@.len())[j as int] != needle@[j as int]);
            return false;
        }
        j = j + 1;
    }
    assert(hay@.subrange(at as int, at + needle@.len()) =~= needle@);
    true
}

/// Whether `needle` occurs in `hay`.
pub fn contains_chars(hay: &Vec<char>, needle: &Vec<char>) -> (b: bool)
    ensures
        b == is_substring(needle@, hay@),
{
    if needle.len() > hay.len() {
        return false;
    }
    let last = hay.len() - needle.len();
    let mut i: usize = 0;
    while i <= last
        invariant
            last == hay@.len() - needle@.len(),
            i <= last + 1,
            forall|k: int|
                0 <= k < i ==> #[trigger] hay@.subrange(k, k + needle@.len()) != needle@,
        decreases last + 1 - i,
    {
        if run_equals(hay, needle, i) {
            return true;
        }
        if i == last {
            return false;
        }
        i = i + 1;
    }
    false
}

/// Whether the text `needle` occurs in the text `hay`.
pub fn contains_str(hay: &str, needle: &str) -> (b: bool)
    ensures
        b == is_substring(needle@, hay@),
{
    let h = chars_of(hay);
    let n = chars_of(needle);
    contains_chars(&h, &n)
}

/// The character of a decimal digit.
pub open spec fn digit_char(d: nat) -> char {
    (48 + d) as char
}

/// The decimal rendering of `n`, without sign or leading zeros.
pub open spec fn decimal(n: nat) -> Seq<char>
    decreases n,
{
    if n < 10 {
        seq![digit_char(n)]
    } else {
        decimal(n / 10) + seq![digit_char(n % 10)]
    }
}

/// Appends the decimal digit `d` to `s`.
fn push_digit(s: &mut String, d: u64)
    requires
        d < 10,
    ensures
        final(s)@ == old(s)@.push(digit_char(d as nat)),
{
    let digits = "0123456789";
    proof {
        reveal_strlit("0123456789");
    }
    let piece = digits.substring_char(d as usize, (d + 1) as usize);
    assert(piece@ =~= seq![digit_char(d as nat)]) by {
        assert(piece@.len() == 1);
        assert(piece@[0] == digits@[d as int]);
        assert(digits@[d as int] == digit_char(d as nat)) by {
            if d == 0 {} else if d == 1 {} else if d == 2 {} else if d == 3 {} else if d == 4 {}
            else if d == 5 {} else if d == 6 {} else if d == 7 {} else if d == 8 {} else {}
        }
    }
    s.append(piece);
}

/// Appends the decimal rendering of `n` to `s`.
pub fn push_decimal(s: &mut String, n: u64)
    ensures
        final(s)@ == old(s)@ + decimal(n as nat),
    decreases n,
{
    if n < 10 {
        push_digit(s, n);
        assert(old(s)@.push(digit_char(n as nat)) =~= old(s)@ + decimal(n as nat));
    } else {
        push_decimal(s, n / 10);
        push_digit(s, n % 10);
        assert(old(s)@ + decimal((n / 10) as nat) + seq![digit_char((n % 10) as nat)]
            =~= old(s)@ + decimal(n as nat));
    }
}

/// The number that the decimal digits `s` stand for, read from the left, a
/// character standing for its distance from `'0'`.
pub open spec fn decimal_value(s: Seq<char>) -> int
    decreases s.len(),
{
    if s.len() == 0 {
        0
    } else {
        decimal_value(s.drop_last()) * 10 + (s.last() as int - '0' as int)
    }
}

proof fn lemma_digit_char_value(d: nat)
    requires
        d < 10,
    ensures
        digit_char(d) as int == d + 48,
{
    if d == 0 {} else if d == 1 {} else if d == 2 {} else if d == 3 {} else if d == 4 {}
    else if d == 5 {} else if d == 6 {} else if d == 7 {} else if d == 8 {} else {}
}

/// The decimal rendering is the standard one: it is made of the digits `0`
/// to `9`, starts with a digit other than `0` unless `n` is `0`, and read
/// back as a base-10 number it gives `n` again. A `Content-Length` or a
/// user id written with it is read back as the number it was.
pub proof fn law_decimal_reads_back(n: nat)
    ensures
        decimal(n).len() >= 1,
        forall|i: int| 0 <= i < decimal(n).len() ==> '0' <= #[trigger] decimal(n)[i] <= '9',
        n >= 10 ==> decimal(n)[0] != '0',
        decimal_value(decimal(n)) == n,
    decreases n,
{
    if n < 10 {
        assert(decimal(n) =~= seq![digit_char(n)]);
        assert(decimal(n).drop_last() =~= Seq::<char>::empty());
        assert(decimal_value(Seq::<char>::empty()) == 0);
        lemma_digit_char_value(n);
    } else {
        law_decimal_reads_back(n / 10);
        let s = decimal(n);
        assert(s.drop_last() =~= decimal(n / 10));
        assert(s.last() == digit_char(n % 10));
        assert(n == (n / 10) * 10 + n % 10);
        lemma_digit_char_value(n % 10);
        assert forall|i: int| 0 <= i < s.len() implies '0' <= #[trigger] s[i] <= '9' by {
            if i < s.len() - 1 {
                assert(s[i] == decimal(n / 10)[i]);
            }
        }
        assert(s[0] == decimal(n / 10)[0]);
        if n / 10 < 10 {
            assert(decimal(n / 10) =~= seq![digit_char(n / 10)]);
            assert(n / 10 >= 1);
        }
    }
}

/// The lowercase hexadecimal digit for `d` (`0 <= d < 16`).
pub open spec fn hex_digit(d: int) -> char {
    if d < 10 {
        (48 + d) as char
    } else {
        (87 + d) as char
    }
}

/// The `j`-th four-bit group of `k`, counting from the most significant end.
pub open spec fn nibble(k: u128, j: int) -> int {
    ((k >> ((124 - 4 * j) as u128)) & 15u128) as int
}

proof fn lemma_nibble_range(k: u128, s: u128)
    ensures
        (k >> s) & 15u128 < 16u128,
{
    assert((k >> s) & 15u128 < 16u128) by (bit_vector);
}

proof fn lemma_hex_digit_injective(d: int, e: int)
    requires
        0 <= d < 16,
        0 <= e < 16,
        hex_digit(d) == hex_digit(e),
    ensures
        d == e,
{
    let x = hex_digit(d) as int;
    let y = hex_digit(e) as int;
    assert(x == y);
}

/// The hyphenated form tells identifiers apart: no two identifiers are
/// written alike.
pub proof fn lemma_uuid_text_injective(a: u128, b: u128)
    requires
        uuid_text(a) == uuid_text(b),
    ensures
        a == b,
{
    assert forall|j: int| 0 <= j < 32 implies #[trigger] nibble(a, j) == nibble(b, j) by {
        let i = j + hyphens_for(j);
        assert(0 <= i < 36 && i != 8 && i != 13 && i != 18 && i != 23);
        assert(i - hyphens_before(i) == j);
        assert(uuid_text(a)[i] == hex_digit(nibble(a, j)));
        assert(uuid_text(b)[i] == hex_digit(nibble(b, j)));
        assert(uuid_text(a)[i] == uuid_text(b)[i]);
        lemma_nibble_range(a, (124 - 4 * j) as u128);
        lemma_nibble_range(b, (124 - 4 * j) as u128);
        lemma_hex_digit_injective(nibble(a, j), nibble(b, j));
    }
    assert(nibble(a, 0) == nibble(b, 0));
    assert(nibble(a, 1) == nibble(b, 1));
    assert(nibble(a, 2) == nibble(b, 2));
    assert(nibble(a, 3) == nibble(b, 3));
    assert(nibble(a, 4) == nibble(b, 4));
    assert(nibble(a, 5) == nibble(b, 5));
    assert(nibble(a, 6) == nibble(b, 6));
    assert(nibble(a, 7) == nibble(b, 7));
    assert(nibble(a, 8) == nibble(b, 8));
    assert(nibble(a, 9) == nibble(b, 9));
    assert(nibble(a, 10) == nibble(b, 10));
    assert(nibble(a, 11) == nibble(b, 11));
    assert(nibble(a, 12) == nibble(b, 12));
    assert(nibble(a, 13) == nibble(b, 13));
    assert(nibble(a, 14) == nibble(b, 14));
    assert(nibble(a, 15) == nibble(b, 15));
    assert(nibble(a, 16) == nibble(b, 16));
    assert(nibble(a, 17) == nibble(b, 17));
    assert(nibble(a, 18) == nibble(b, 18));
    assert(nibble(a, 19) == nibble(b, 19));
    assert(nibble(a, 20) == nibble(b, 20));
    assert(nibble(a, 21) == nibble(b, 21));
    assert(nibble(a, 22) == nibble(b, 22));
    assert(nibble(a, 23) == nibble(b, 23));
    assert(nibble(a, 24) == nibble(b, 24));
    assert(nibble(a, 25) == nibble(b, 25));
    assert(nibble(a, 26) == nibble(b, 26));
    assert(nibble(a, 27) == nibble(b, 27));
    assert(nibble(a, 28) == nibble(b, 28));
    assert(nibble(a, 29) == nibble(b, 29));
    assert(nibble(a, 30) == nibble(b, 30));
    assert(nibble(a, 31) == nibble(b, 31));
    assert(a == b) by (bit_vector)
        requires
            (a >> 124u128) & 15u128 == (b >> 124u128) & 15u128,
            (a >> 120u128) & 15u128 == (b >> 120u128) & 15u128,
            (a >> 116u128) & 15u128 == (b >> 116u128) & 15u128,
            (a >> 112u128) & 15u128 == (b >> 112u128) & 15u128,
            (a >> 108u128) & 15u128 == (b >> 108u128) & 15u128,
            (a >> 104u128) & 15u128 == (b >> 104u128) & 15u128,
            (a >> 100u128) & 15u128 == (b >> 100u128) & 15u128,
            (a >> 96u128) & 15u128 == (b >> 96u128) & 15u128,
            (a >> 92u128) & 15u128 == (b >> 92u128) & 15u128,
            (a >> 88u128) & 15u128 == (b >> 88u128) & 15u128,
            (a >> 84u128) & 15u128 == (b >> 84u128) & 15u128,
            (a >> 80u128) & 15u128 == (b >> 80u128) & 15u128,
            (a >> 76u128) & 15u128 == (b >> 76u128) & 15u128,
            (a >> 72u128) & 15u128 == (b >> 72u128) & 15u128,
            (a >> 68u128) & 15u128 == (b >> 68u128) & 15u128,
            (a >> 64u128) & 15u128 == (b >> 64u128) & 15u128,
            (a >> 60u128) & 15u128 == (b >> 60u128) & 15u128,
            (a >> 56u128) & 15u128 == (b >> 56u128) & 15u128,
            (a >> 52u128) & 15u128 == (b >> 52u128) & 15u128,
            (a >> 48u128) & 15u128 == (b >> 48u128) & 15u128,
            (a >> 44u128) & 15u128 == (b >> 44u128) & 15u128,
            (a >> 40u128) & 15u128 == (b >> 40u128) & 15u128,
            (a >> 36u128) & 15u128 == (b >> 36u128) & 15u128,
            (a >> 32u128) & 15u128 == (b >> 32u128) & 15u128,
            (a >> 28u128) & 15u128 == (b >> 28u128) & 15u128,
            (a >> 24u128) & 15u128 == (b >> 24u128) & 15u128,
            (a >> 20u128) & 15u128 == (b >> 20u128) & 15u128,
            (a >> 16u128) & 15u128 == (b >> 16u128) & 15u128,
            (a >> 12u128) & 15u128 == (b >> 12u128) & 15u128,
            (a >> 8u128) & 15u128 == (b >> 8u128) & 15u128,
            (a >> 4u128) & 15u128 == (b >> 4u128) & 15u128,
            (a >> 0u128) & 15u128 == (b >> 0u128) & 15u128,
    ;
}

/// How many hyphens stand before the `j`-th hexadecimal digit.
pub open spec fn hyphens_for(j: int) -> int {
    if j < 8 {
        0
    } else if j < 12 {
        1
    } else if j < 16 {
        2
    } else if j < 20 {
        3
    } else {
        4
    }
}

/// How many hyphens stand before position `i` of the hyphenated form.
pub open spec fn hyphens_before(i: int) -> int {
    if i < 8 {
        0
    } else if i < 13 {
        1
    } else if i < 18 {
        2
    } else if i < 23 {
        3
    } else {
        4
    }
}

/// The hyphenated lowercase form of a 128-bit identifier: 32 hexadecimal
/// digits, most significant first, in groups of 8-4-4-4-12.
pub open spec fn uuid_text(k: u128) -> Seq<char> {
    Seq::new(
        36,
        |i: int|
            if i == 8 || i == 13 || i == 18 || i == 23 {
                '-'
            } else {
                hex_digit(nibble(k, i - hyphens_before(i)))
            },
    )
}

/// The first line of a text as `str::lines` yields it: the characters before
/// the first `'\n'` (without a `'\r'` right before it), the whole text when
/// it holds no `'\n'`, and nothing when the text is empty.
pub open spec fn first_line(s: Seq<char>) -> Option<Seq<char>> {
    if s.len() == 0 {
        None
    } else if exists|i: int| 0 <= i < s.len() && s[i] == '\n' {
        let i = choose|i: int| 0 <= i < s.len() && s[i] == '\n' && forall|j: int| 0 <= j < i ==> s[j] != '\n';
        if i > 0 && s[i - 1] == '\r' {
            Some(s.take(i - 1))
        } else {
            Some(s.take(i))
        }
    } else {
        Some(s)
    }
}

/// Where the first line of `s` ends: `first_line(s)` is the run of
/// characters before the returned index.
pub fn first_line_end(s: &Vec<char>) -> (r: Option<usize>)
    ensures
        match r {
            Some(end) => end <= s@.len() && first_line(s@) == Some(s@.take(end as int)),
            None => first_line(s@) is None,
        },
{
    if s.len() == 0 {
        return None;
    }
    let mut i: usize = 0;
    while i < s.len()
        invariant
            i <= s@.len(),
            forall|j: int| 0 <= j < i ==> s@[j] != '\n',
        decreases s@.len() - i,
    {
        if s[i] == '\n' {
            let ghost k = choose|k: int|
                0 <= k < s@.len() && s@[k] == '\n' && forall|j: int| 0 <= j < k ==> s@[j] != '\n';
            assert(k == i) by {
                if k < i {
                } else if k > i {
                    assert(s@[i as int] == '\n');
                }
            }
            if i > 0 && s[i - 1] == '\r' {
                return Some(i - 1);
            }
            return Some(i);
        }
        i = i + 1;
    }
    assert(s@.take(s@.len() as int) =~= s@);
    Some(s.len())
}

} // verus!
