//! Text helpers shared by the library: decimal rendering and parsing of
//! integers, substring search and case-insensitive comparison.

use vstd::prelude::*;

verus! {

/// The ASCII digit for a value below ten.
pub open spec fn digit_char(d: nat) -> char {
    if d == 0 { '0' }
    else if d == 1 { '1' }
    else if d == 2 { '2' }
    else if d == 3 { '3' }
    else if d == 4 { '4' }
    else if d == 5 { '5' }
    else if d == 6 { '6' }
    else if d == 7 { '7' }
    else if d == 8 { '8' }
    else { '9' }
}

/// The decimal representation of a natural number, without leading zeros.
pub open spec fn decimal(n: nat) -> Seq<char>
    decreases n,
{
    if n < 10 {
        seq![digit_char(n)]
    } else {
        decimal(n / 10).push(digit_char(n % 10))
    }
}

/// The decimal representation of an integer, with a leading `-` when negative.
pub open spec fn signed_decimal(n: int) -> Seq<char> {
    if n < 0 {
        seq!['-'] + decimal((-n) as nat)
    } else {
        decimal(n as nat)
    }
}

fn digit_str(d: u64) -> (s: &'static str)
    requires
        d < 10,
    ensures
        s@ == seq![digit_char(d as nat)],
{
    if d == 0 {
        proof { reveal_strlit("0"); }
        "0"
    } else if d == 1 {
        proof { reveal_strlit("1"); }
        "1"
    } else if d == 2 {
        proof { reveal_strlit("2"); }
        "2"
    } else if d == 3 {
        proof { reveal_strlit("3"); }
        "3"
    } else if d == 4 {
        proof { reveal_strlit("4"); }
        "4"
    } else if d == 5 {
        proof { reveal_strlit("5"); }
        "5"
    } else if d == 6 {
        proof { reveal_strlit("6"); }
        "6"
    } else if d == 7 {
        proof { reveal_strlit("7"); }
        "7"
    } else if d == 8 {
        proof { reveal_strlit("8"); }
        "8"
    } else {
        proof { reveal_strlit("9"); }
        "9"
    }
}

/// Appends the decimal representation of `n` to `s`.
pub fn push_decimal(s: &mut String, n: u64)
    ensures
        final(s)@ == old(s)@ + decimal(n as nat),
    decreases n,
{
    if n >= 10 {
        push_decimal(s, n / 10);
        let d = digit_str(n % 10);
        s.append(d);
        proof {
            assert(decimal(n as nat) == decimal((n / 10) as nat).push(digit_char((n % 10) as nat)));
            assert(s@ =~= old(s)@ + decimal(n as nat));
        }
    } else {
        let d = digit_str(n);
        s.append(d);
        proof {
            assert(s@ =~= old(s)@ + decimal(n as nat));
        }
    }
}

/// Appends the decimal representation of `n`, signed, to `s`.
pub fn push_signed_decimal(s: &mut String, n: i64)
    ensures
        final(s)@ == old(s)@ + signed_decimal(n as int),
{
    if n < 0 {
        s.append("-");
        proof { reveal_strlit("-"); }
        let magnitude: u64 = if n == i64::MIN { 9223372036854775808u64 } else { (-n) as u64 };
        push_decimal(s, magnitude);
        assert(s@ =~= old(s)@ + signed_decimal(n as int));
    } else {
        push_decimal(s, n as u64);
    }
}

} // verus!

verus! {

/// Whether `needle` occurs in `hay` starting at position `i`.
pub open spec fn occurs_at<T>(hay: Seq<T>, needle: Seq<T>, i: int) -> bool {
    &&& 0 <= i
    &&& i + needle.len() <= hay.len()
    &&& hay.subrange(i, i + needle.len()) == needle
}

/// Whether `needle` occurs somewhere in `hay`.
pub open spec fn contains_seq<T>(hay: Seq<T>, needle: Seq<T>) -> bool {
    exists|i: int| occurs_at(hay, needle, i)
}

/// The characters of a string slice, one by one.
pub fn chars_of(s: &str) -> (v: Vec<char>)
    ensures
        v@ == s@,
{
    let n = s.unicode_len();
    let mut v: Vec<char> = Vec::new();
    let mut i: usize = 0;
    while i < n
        invariant
            i <= n,
            n == s@.len(),
            v@ == s@.subrange(0, i as int),
        decreases n - i,
    {
        let c = s.get_char(i);
        v.push(c);
        assert(v@ =~= s@.subrange(0, (i + 1) as int));
        i = i + 1;
    }
    assert(v@ =~= s@);
    v
}

fn chars_match_at(hay: &Vec<char>, needle: &Vec<char>, i: usize) -> (r: bool)
    requires
        i + needle@.len() <= hay@.len(),
    ensures
        r == occurs_at(hay@, needle@, i as int),
{
    let hl = hay.len();
    let mut k: usize = 0;
    while k < needle.len()
        invariant
            k <= needle@.len(),
            hl == hay@.len(),
            i + needle@.len() <= hay@.len(),
            forall|j: int| 0 <= j < k ==> hay@[i + j] == needle@[j],
        decreases needle@.len() - k,
    {
        if hay[i + k] != needle[k] {
            assert(hay@.subrange(i as int, i + needle@.len())[k as int] != needle@[k as int]);
            return false;
        }
        k = k + 1;
    }
    assert(hay@.subrange(i as int, i + needle@.len()) =~= needle@);
    true
}

/// Whether `needle` occurs in `hay`, as `str::contains` answers for a string
/// pattern.
pub fn str_contains(hay: &str, needle: &str) -> (r: bool)
    ensures
        r == contains_seq(hay@, needle@),
{
    let h = chars_of(hay);
    let n = chars_of(needle);
    if n.len() > h.len() {
        assert forall|i: int| !occurs_at(hay@, needle@, i) by {}
        return false;
    }
    let last = h.len() - n.len();
    let mut i: usize = 0;
    loop
        invariant
            i <= last,
            last == h@.len() - n@.len(),
            n@.len() <= h@.len(),
            h@ == hay@,
            n@ == needle@,
            forall|j: int| 0 <= j < i ==> !occurs_at(hay@, needle@, j),
        ensures
            forall|j: int| 0 <= j <= last ==> !occurs_at(hay@, needle@, j),
        decreases last - i,
    {
        if chars_match_at(&h, &n, i) {
            return true;
        }
        if i == last {
            break;
        }
        i = i + 1;
    }
    assert forall|j: int| !occurs_at(hay@, needle@, j) by {
        if 0 <= j && j + needle@.len() <= hay@.len() {
            assert(j <= last);
        }
    }
    false
}

/// Whether `c` lower-cases to exactly the ASCII character `t`: `t` itself, its
/// upper-case ASCII letter, or, for `k`, the Kelvin sign.
pub open spec fn lowers_to(c: char, t: char) -> bool {
    ||| c == t
    ||| (65 <= c as u32 <= 90 && c as u32 + 32 == t as u32)
    ||| (c == '\u{212A}' && t == 'k')
}

/// Whether `s.to_lowercase()` equals `t`, for a `t` made of lower-case ASCII
/// characters: no other character lower-cases into ASCII.
pub open spec fn lowercase_equals(s: Seq<char>, t: Seq<char>) -> bool {
    &&& s.len() == t.len()
    &&& forall|i: int| 0 <= i < s.len() ==> lowers_to(s[i], t[i])
}

/// `c.to_ascii_uppercase()`: an ASCII lower-case letter becomes its
/// upper-case letter, every other character stays.
pub open spec fn ascii_upper_char(c: char) -> char {
    if 97 <= c as u32 && c as u32 <= 122 {
        ((c as u32) - 32) as char
    } else {
        c
    }
}

/// `s.to_ascii_uppercase()`, character by character.
pub open spec fn ascii_uppercase(s: Seq<char>) -> Seq<char> {
    s.map_values(|c: char| ascii_upper_char(c))
}

/// Upper-casing ASCII letters does not change what a text lower-cases to,
/// when compared with a text that holds no upper-case ASCII letter.
pub proof fn lemma_lowercase_equals_upper(s: Seq<char>, t: Seq<char>)
    requires
        forall|i: int| 0 <= i < t.len() ==> !(65 <= (#[trigger] t[i]) as u32 && t[i] as u32 <= 90),
    ensures
        lowercase_equals(ascii_uppercase(s), t) == lowercase_equals(s, t),
{
    let u = ascii_uppercase(s);
    assert forall|i: int| 0 <= i < s.len() && i < t.len() implies lowers_to(#[trigger] u[i], t[i]) == lowers_to(s[i], t[i]) by {
        let c = s[i];
        assert(u[i] == ascii_upper_char(c));
        assert(!(65 <= t[i] as u32 && t[i] as u32 <= 90));
        if 97 <= c as u32 && c as u32 <= 122 {
            let x: u32 = ((c as u32) - 32) as u32;
            assert(65 <= x <= 90);
            assert((x as char) as u32 == x);
            assert(u[i] == x as char);
            assert('\u{212A}' as u32 == 8490);
            assert(u[i] != '\u{212A}');
            assert(c != '\u{212A}');
            assert(u[i] != t[i]);
            assert((u[i] as u32 + 32 == t[i] as u32) == (c as u32 == t[i] as u32));
            vstd::utf8::char_u32_cast(c, c as u32);
            vstd::utf8::char_u32_cast(t[i], t[i] as u32);
            assert((c as u32 == t[i] as u32) ==> c == t[i]);
            assert(lowers_to(u[i], t[i]) == (c == t[i]));
            assert(lowers_to(s[i], t[i]) == (c == t[i]));
        } else {
            assert(u[i] == c);
        }
    }
    if lowercase_equals(s, t) {
        assert forall|i: int| 0 <= i < u.len() implies lowers_to(u[i], t[i]) by {
            assert(lowers_to(s[i], t[i]));
        }
    }
    if lowercase_equals(u, t) {
        assert forall|i: int| 0 <= i < s.len() implies lowers_to(s[i], t[i]) by {
            assert(lowers_to(u[i], t[i]));
        }
    }
}

/// Compares `s.to_lowercase()` with the lower-case ASCII text `t`.
pub fn lowercase_eq(s: &str, t: &str) -> (r: bool)
    ensures
        r == lowercase_equals(s@, t@),
{
    let sv = chars_of(s);
    let tv = chars_of(t);
    if sv.len() != tv.len() {
        return false;
    }
    let mut i: usize = 0;
    while i < sv.len()
        invariant
            i <= sv@.len(),
            sv@.len() == tv@.len(),
            sv@ == s@,
            tv@ == t@,
            forall|j: int| 0 <= j < i ==> lowers_to(s@[j], t@[j]),
        decreases sv@.len() - i,
    {
        let c = sv[i];
        let d = tv[i];
        let cu = c as u32;
        let du = d as u32;
        let ok = c == d || (65 <= cu && cu <= 90 && cu + 32 == du) || (c == '\u{212A}' && d
            == 'k');
        if !ok {
            assert(!lowers_to(s@[i as int], t@[i as int]));
            return false;
        }
        assert(lowers_to(s@[i as int], t@[i as int]));
        i = i + 1;
    }
    true
}

/// Whether `c` is an ASCII decimal digit.
pub open spec fn is_digit(c: char) -> bool {
    '0' <= c && c <= '9'
}

/// The value of a non-empty run of ASCII digits, most significant first.
pub open spec fn digits_value(s: Seq<char>) -> nat
    decreases s.len(),
{
    if s.len() == 0 {
        0
    } else {
        digits_value(s.drop_last()) * 10 + (s.last() as nat - '0' as nat) as nat
    }
}

/// The digits that `usize::from_str` reads: everything after an optional
/// leading `+`.
pub open spec fn unsigned_digits(s: Seq<char>) -> Seq<char> {
    if s.len() > 0 && s[0] == '+' {
        s.drop_first()
    } else {
        s
    }
}

/// What `s.parse::<usize>().ok()` returns: the value of the digits after an
/// optional `+` when there is at least one digit, every one is an ASCII digit
/// and the value fits in `usize`; otherwise nothing.
pub open spec fn parse_usize_spec(s: Seq<char>) -> Option<usize> {
    let d = unsigned_digits(s);
    if d.len() > 0 && (forall|i: int| 0 <= i < d.len() ==> is_digit(d[i])) && digits_value(d)
        <= usize::MAX {
        Some(digits_value(d) as usize)
    } else {
        None
    }
}

/// Parses an unsigned decimal the way `str::parse::<usize>` does.
pub fn parse_usize(s: &str) -> (r: Option<usize>)
    ensures
        r == parse_usize_spec(s@),
{
    let v = chars_of(s);
    let mut start: usize = 0;
    if v.len() > 0 && v[0] == '+' {
        start = 1;
    }
    let ghost d = unsigned_digits(s@);
    assert(d =~= v@.subrange(start as int, v@.len() as int));
    if start >= v.len() {
        return None;
    }
    let mut acc: usize = 0;
    let mut i: usize = start;
    while i < v.len()
        invariant
            start <= i <= v@.len(),
            v@ == s@,
            d == unsigned_digits(s@),
            d == v@.subrange(start as int, v@.len() as int),
            forall|j: int| start <= j < i ==> is_digit(v@[j]),
            acc as nat == digits_value(v@.subrange(start as int, i as int)),
        decreases v@.len() - i,
    {
        let c = v[i];
        if !('0' <= c && c <= '9') {
            assert(!is_digit(d[i - start]));
            assert(!(forall|j: int| 0 <= j < d.len() ==> is_digit(d[j])));
            return None;
        }
        let dv = (c as u32 - '0' as u32) as usize;
        assert(v@.subrange(start as int, (i + 1) as int).drop_last() =~= v@.subrange(
            start as int,
            i as int,
        ));
        if acc > (usize::MAX - dv) / 10 {
            proof {
                let pre = v@.subrange(start as int, i as int);
                let nxt = v@.subrange(start as int, (i + 1) as int);
                assert(digits_value(nxt) == acc * 10 + dv);
                assert(acc * 10 + dv > usize::MAX) by (nonlinear_arith)
                    requires
                        acc > (usize::MAX - dv) / 10,
                        dv <= 9,
                ;
                assert(nxt =~= d.subrange(0, (i + 1 - start) as int));
                if forall|j: int| 0 <= j < d.len() ==> is_digit(d[j]) {
                    lemma_digits_value_prefix_mono(d, (i + 1 - start) as nat);
                }
            }
            return None;
        }
        acc = acc * 10 + dv;
        i = i + 1;
    }
    assert(v@.subrange(start as int, v@.len() as int) =~= d);
    Some(acc)
}

/// A longer run of digits never has a smaller value than its prefix.
proof fn lemma_digits_value_prefix_mono(d: Seq<char>, k: nat)
    requires
        k <= d.len(),
        forall|i: int| 0 <= i < d.len() ==> is_digit(d[i]),
    ensures
        digits_value(d) >= digits_value(d.subrange(0, k as int)),
    decreases d.len(),
{
    if d.len() == k {
        assert(d.subrange(0, k as int) =~= d);
    } else {
        let p = d.drop_last();
        assert(p.subrange(0, k as int) =~= d.subrange(0, k as int));
        lemma_digits_value_prefix_mono(p, k);
        assert(digits_value(d) == digits_value(p) * 10 + (d.last() as nat - '0' as nat) as nat);
    }
}

} // verus!

verus! {

/// Whether two string slices hold the same characters.
pub fn str_equals(a: &str, b: &str) -> (r: bool)
    ensures
        r == (a@ == b@),
{
    let av = chars_of(a);
    let bv = chars_of(b);
    if av.len() != bv.len() {
        return false;
    }
    let mut i: usize = 0;
    while i < av.len()
        invariant
            i <= av@.len(),
            av@.len() == bv@.len(),
            av@ == a@,
            bv@ == b@,
            forall|j: int| 0 <= j < i ==> av@[j] == bv@[j],
        decreases av@.len() - i,
    {
        if av[i] != bv[i] {
            return false;
        }
        i = i + 1;
    }
    assert(av@ =~= bv@);
    true
}

} // verus!
