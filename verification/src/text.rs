//! Character-level helpers shared by the parsers and formatters.
use vstd::prelude::*;

verus! {

/// The characters of `s`, in order.
pub fn chars_of(s: &str) -> (r: Vec<char>)
    ensures
        r@ == s@,
{
    broadcast use vstd::string::group_string_axioms;
    let mut r: Vec<char> = Vec::new();
    for c in it: s.chars()
        invariant
            it.seq() == s@,
            r@ == it.seq().take(it.index()),
    {
        r.push(c);
    }
    r
}

/// Appends one character to a `String` (`String::push`).
#[verifier::external_body]
pub(crate) fn push_char(s: &mut String, c: char)
    ensures
        final(s)@ == old(s)@.push(c),
{
    s.push(c);
}

/// A `String` holding exactly the characters of `v`.
pub fn string_of(v: &[char]) -> (r: String)
    ensures
        r@ == v@,
{
    let mut r = String::new();
    let mut i: usize = 0;
    while i < v.len()
        invariant
            i <= v.len(),
            r@ == v@.take(i as int),
        decreases v.len() - i,
    {
        push_char(&mut r, v[i]);
        i += 1;
        assert(r@ == v@.take(i as int));
    }
    assert(v@.take(v.len() as int) == v@);
    r
}

} // verus!

verus! {

/// Unicode `White_Space` characters: what `char::is_whitespace` accepts and
/// what `str::trim` strips.
pub open spec fn is_white_space(c: char) -> bool {
    ||| ('\u{9}' <= c && c <= '\u{d}')
    ||| c == ' '
    ||| c == '\u{85}'
    ||| c == '\u{a0}'
    ||| c == '\u{1680}'
    ||| ('\u{2000}' <= c && c <= '\u{200a}')
    ||| c == '\u{2028}'
    ||| c == '\u{2029}'
    ||| c == '\u{202f}'
    ||| c == '\u{205f}'
    ||| c == '\u{3000}'
}

pub fn white_space(c: char) -> (r: bool)
    ensures
        r == is_white_space(c),
{
    ('\u{9}' <= c && c <= '\u{d}') || c == ' ' || c == '\u{85}' || c == '\u{a0}' || c
        == '\u{1680}' || ('\u{2000}' <= c && c <= '\u{200a}') || c == '\u{2028}' || c
        == '\u{2029}' || c == '\u{202f}' || c == '\u{205f}' || c == '\u{3000}'
}

/// `s` without its leading white space.
pub open spec fn trim_start(s: Seq<char>) -> Seq<char>
    decreases s.len(),
{
    if s.len() > 0 && is_white_space(s[0]) {
        trim_start(s.drop_first())
    } else {
        s
    }
}

/// `s` without its trailing white space.
pub open spec fn trim_end(s: Seq<char>) -> Seq<char>
    decreases s.len(),
{
    if s.len() > 0 && is_white_space(s.last()) {
        trim_end(s.drop_last())
    } else {
        s
    }
}

/// `s` without leading and trailing white space (`str::trim`).
pub open spec fn trim(s: Seq<char>) -> Seq<char> {
    trim_end(trim_start(s))
}

/// The characters of `s` between `from` and `to` with white space stripped
/// from both ends.
pub fn trim_range(s: &[char], from: usize, to: usize) -> (r: Vec<char>)
    requires
        from <= to <= s.len(),
    ensures
        r@ == trim(s@.subrange(from as int, to as int)),
{
    let ghost whole = s@.subrange(from as int, to as int);
    let mut a = from;
    while a < to && white_space(s[a])
        invariant
            from <= a <= to <= s.len(),
            trim_start(whole) == trim_start(s@.subrange(a as int, to as int)),
        decreases to - a,
    {
        assert(s@.subrange(a as int, to as int).drop_first() =~= s@.subrange(a + 1, to as int));
        a += 1;
    }
    assert(trim_start(whole) == s@.subrange(a as int, to as int));
    let mut b = to;
    while b > a && white_space(s[b - 1])
        invariant
            from <= a <= b <= to <= s.len(),
            trim(whole) == trim_end(s@.subrange(a as int, b as int)),
        decreases b - a,
    {
        assert(s@.subrange(a as int, b as int).drop_last() =~= s@.subrange(a as int, b - 1));
        b -= 1;
    }
    let mut r: Vec<char> = Vec::new();
    let mut i = a;
    while i < b
        invariant
            a <= i <= b <= s.len(),
            r@ == s@.subrange(a as int, i as int),
        decreases b - i,
    {
        r.push(s[i]);
        i += 1;
        assert(r@ =~= s@.subrange(a as int, i as int));
    }
    r
}

/// `n` occurs in `h` starting at index `i`.
pub open spec fn occurs_at(h: Seq<char>, n: Seq<char>, i: int) -> bool {
    0 <= i && i + n.len() <= h.len() && h.subrange(i, i + n.len()) == n
}

/// `n` occurs somewhere in `h` (`str::contains`).
pub open spec fn has_sub(h: Seq<char>, n: Seq<char>) -> bool {
    exists|i: int| occurs_at(h, n, i)
}

/// The first index at or after `from` where `n` occurs in `h`.
pub open spec fn first_occurrence_from(h: Seq<char>, n: Seq<char>, from: int, r: Option<usize>) -> bool {
    match r {
        Some(i) => from <= i && occurs_at(h, n, i as int) && forall|j: int|
            from <= j < i ==> !occurs_at(h, n, j),
        None => forall|j: int| from <= j ==> !occurs_at(h, n, j),
    }
}

fn matches_at(h: &[char], n: &[char], i: usize) -> (r: bool)
    requires
        i <= h.len(),
    ensures
        r == occurs_at(h@, n@, i as int),
{
    if n.len() > h.len() - i {
        return false;
    }
    let mut k: usize = 0;
    while k < n.len()
        invariant
            i + n.len() <= h.len(),
            k <= n.len(),
            forall|m: int| 0 <= m < k ==> h@[i + m] == n@[m],
        decreases n.len() - k,
    {
        if h[i + k] != n[k] {
            assert(h@.subrange(i as int, i + n.len())[k as int] != n@[k as int]);
            return false;
        }
        k += 1;
    }
    assert(h@.subrange(i as int, i + n.len()) =~= n@);
    true
}

/// The first index at or after `from` where `n` occurs in `h`.
pub fn find_from(h: &[char], n: &[char], from: usize) -> (r: Option<usize>)
    ensures
        first_occurrence_from(h@, n@, from as int, r),
{
    let mut i = from;
    if i > h.len() {
        return None;
    }
    while i < h.len()
        invariant
            from <= i <= h.len(),
            forall|j: int| from <= j < i ==> !occurs_at(h@, n@, j),
        decreases h.len() - i,
    {
        if matches_at(h, n, i) {
            return Some(i);
        }
        i += 1;
    }
    if matches_at(h, n, i) {
        return Some(i);
    }
    assert forall|j: int| from <= j implies !occurs_at(h@, n@, j) by {
        if j > h.len() {
            assert(!(j + n@.len() <= h@.len()));
        }
    }
    None
}

/// Whether `n` occurs in `h`.
pub fn contains_chars(h: &[char], n: &[char]) -> (r: bool)
    ensures
        r == has_sub(h@, n@),
{
    match find_from(h, n, 0) {
        Some(i) => true,
        None => false,
    }
}

/// Whether `s` starts with `p`.
pub fn starts_with(s: &[char], p: &[char]) -> (r: bool)
    ensures
        r == (p.len() <= s.len() && s@.take(p.len() as int) == p@),
{
    let r = matches_at(s, p, 0);
    proof {
        if p.len() <= s.len() {
            assert(s@.subrange(0, p.len() as int) == s@.take(p.len() as int));
        }
    }
    r
}

} // verus!

verus! {

/// Whether `c` is an ASCII decimal digit.
pub open spec fn is_digit(c: char) -> bool {
    '0' <= c && c <= '9'
}

/// The value of the decimal digit `c`.
pub open spec fn digit_value(c: char) -> nat {
    (c as u32 - '0' as u32) as nat
}

/// The value of a string of decimal digits, most significant first.
pub open spec fn decimal_value(s: Seq<char>) -> nat
    decreases s.len(),
{
    if s.len() == 0 {
        0
    } else {
        decimal_value(s.drop_last()) * 10 + digit_value(s.last())
    }
}

/// `s` without one leading `+`, if it has one.
pub open spec fn without_plus(s: Seq<char>) -> Seq<char> {
    if s.len() > 0 && s[0] == '+' {
        s.drop_first()
    } else {
        s
    }
}

/// Every character of `s` is a decimal digit.
pub open spec fn all_digits(s: Seq<char>) -> bool {
    forall|i: int| 0 <= i < s.len() ==> is_digit(#[trigger] s[i])
}

/// What `str::parse::<u64>` gives: an optional `+`, then at least one decimal
/// digit and nothing else, with a value that fits in 64 bits.
pub open spec fn parse_u64_spec(s: Seq<char>) -> Option<u64> {
    let digits = without_plus(s);
    if digits.len() > 0 && all_digits(digits) && decimal_value(digits) <= u64::MAX {
        Some(decimal_value(digits) as u64)
    } else {
        None
    }
}

proof fn lemma_decimal_value_prefix(s: Seq<char>, k: int)
    requires
        0 <= k <= s.len(),
    ensures
        decimal_value(s.take(k)) <= decimal_value(s),
    decreases s.len(),
{
    if k < s.len() {
        assert(s.drop_last().take(k) =~= s.take(k));
        lemma_decimal_value_prefix(s.drop_last(), k);
    } else {
        assert(s.take(k) =~= s);
    }
}

/// Parses the characters of `s` between `from` and `to` as a `u64`, the way
/// `str::parse::<u64>` does.
pub fn parse_u64_range(s: &[char], from: usize, to: usize) -> (r: Option<u64>)
    requires
        from <= to <= s.len(),
    ensures
        r == parse_u64_spec(s@.subrange(from as int, to as int)),
{
    let ghost whole = s@.subrange(from as int, to as int);
    let mut start = from;
    if from < to && s[from] == '+' {
        start = from + 1;
    }
    let ghost digits = s@.subrange(start as int, to as int);
    assert(digits =~= without_plus(whole));
    if start == to {
        return None;
    }
    let mut acc: u64 = 0;
    let mut i = start;
    while i < to
        invariant
            start <= i <= to <= s.len(),
            digits == s@.subrange(start as int, to as int),
            digits == without_plus(whole),
            whole == s@.subrange(from as int, to as int),
            digits.len() > 0,
            forall|k: int| 0 <= k < i - start ==> is_digit(#[trigger] digits[k]),
            acc as nat == decimal_value(digits.take(i - start)),
        decreases to - i,
    {
        let c = s[i];
        if !('0' <= c && c <= '9') {
            assert(!is_digit(digits[i - start]));
            assert(parse_u64_spec(whole) is None);
            return None;
        }
        let d = (c as u32 - '0' as u32) as u64;
        assert(digits.take(i + 1 - start).drop_last() =~= digits.take(i - start));
        assert(digits.take(i + 1 - start).last() == c);
        if acc > (u64::MAX - d) / 10 {
            proof {
                assert(decimal_value(digits.take(i + 1 - start)) == acc * 10 + d);
                assert(acc * 10 + d > u64::MAX) by (nonlinear_arith)
                    requires
                        acc > (u64::MAX - d) / 10,
                        d <= 9,
                ;
                lemma_decimal_value_prefix(digits, i + 1 - start);
                assert(parse_u64_spec(whole) is None);
            }
            return None;
        }
        assert(acc * 10 + d <= u64::MAX) by (nonlinear_arith)
            requires
                acc <= (u64::MAX - d) / 10,
                d <= 9,
        ;
        acc = acc * 10 + d;
        i += 1;
    }
    assert(digits.take(to - start) =~= digits);
    Some(acc)
}

/// The character for digit `d` (0..16) in lower-case base 16 (or base 10).
pub open spec fn digit_char(d: nat) -> char {
    if d < 10 {
        (48 + d) as char
    } else {
        (87 + d) as char
    }
}

/// `n` in base `b` (10 or 16), without leading zeros (`0` for zero).
pub open spec fn digits_in_base(n: nat, b: nat) -> Seq<char>
    decreases n,
{
    if n < b || b < 2 {
        seq![digit_char(n)]
    } else {
        proof {
            assert(n / b < n) by (nonlinear_arith)
                requires
                    n >= b,
                    b >= 2,
            ;
        }
        digits_in_base(n / b, b).push(digit_char(n % b))
    }
}

/// `n` in decimal (what `{}` prints).
pub open spec fn decimal(n: nat) -> Seq<char> {
    digits_in_base(n, 10)
}

/// `n` in lower-case hexadecimal (what `{:x}` prints).
pub open spec fn hex(n: nat) -> Seq<char> {
    digits_in_base(n, 16)
}

/// `s` padded on the left with `0` to at least `w` characters.
pub open spec fn zero_pad(s: Seq<char>, w: nat) -> Seq<char> {
    if s.len() >= w {
        s
    } else {
        Seq::new((w - s.len()) as nat, |i: int| '0') + s
    }
}

fn digit_char_exec(d: u64) -> (c: char)
    requires
        d < 16,
    ensures
        c == digit_char(d as nat),
{
    if d < 10 {
        ((d as u8) + 48) as char
    } else {
        ((d as u8) + 87) as char
    }
}

/// Appends the base-`b` digits of `n`.
pub fn push_digits(out: &mut Vec<char>, n: u128, b: u128)
    requires
        b == 10 || b == 16,
    ensures
        final(out)@ == old(out)@ + digits_in_base(n as nat, b as nat),
    decreases n,
{
    if n >= b {
        push_digits(out, n / b, b);
    }
    out.push(digit_char_exec((n % b) as u64));
    proof {
        if n >= b {
            assert(old(out)@ + digits_in_base((n / b) as nat, b as nat).push(
                digit_char((n % b) as nat),
            ) =~= (old(out)@ + digits_in_base((n / b) as nat, b as nat)).push(
                digit_char((n % b) as nat),
            ));
        }
    }
}

/// Appends `s` padded on the left with zeros to `w` characters.
pub fn push_padded(out: &mut Vec<char>, n: u128, b: u128, w: usize)
    requires
        b == 10 || b == 16,
    ensures
        final(out)@ == old(out)@ + zero_pad(digits_in_base(n as nat, b as nat), w as nat),
{
    let mut tmp: Vec<char> = Vec::new();
    push_digits(&mut tmp, n, b);
    assert(tmp@ =~= digits_in_base(n as nat, b as nat));
    let ghost base = out@;
    if tmp.len() < w {
        let mut k = tmp.len();
        while k < w
            invariant
                tmp@ == digits_in_base(n as nat, b as nat),
                tmp.len() <= k <= w,
                out@ == base + Seq::new((k - tmp.len()) as nat, |i: int| '0'),
            decreases w - k,
        {
            out.push('0');
            k += 1;
            assert(out@ =~= base + Seq::new((k - tmp.len()) as nat, |i: int| '0'));
        }
    }
    let ghost mid = out@;
    let mut i: usize = 0;
    while i < tmp.len()
        invariant
            i <= tmp.len(),
            out@ == mid + tmp@.take(i as int),
        decreases tmp.len() - i,
    {
        out.push(tmp[i]);
        i += 1;
        assert(out@ =~= mid + tmp@.take(i as int));
    }
    assert(tmp@.take(tmp.len() as int) =~= tmp@);
    assert(out@ =~= old(out)@ + zero_pad(tmp@, w as nat));
}

/// Appends all of `s`.
pub fn push_all(out: &mut Vec<char>, s: &[char])
    ensures
        final(out)@ == old(out)@ + s@,
{
    let ghost base = out@;
    let mut i: usize = 0;
    while i < s.len()
        invariant
            i <= s.len(),
            out@ == base + s@.take(i as int),
        decreases s.len() - i,
    {
        out.push(s[i]);
        i += 1;
        assert(out@ =~= base + s@.take(i as int));
    }
    assert(s@.take(s.len() as int) =~= s@);
}

/// Appends all characters of the string `s`.
pub fn push_str(out: &mut Vec<char>, s: &str)
    ensures
        final(out)@ == old(out)@ + s@,
{
    let v = chars_of(s);
    push_all(out, v.as_slice());
}

/// What `str::to_lowercase` returns for a string (full Unicode case mapping).
pub uninterp spec fn lowercase(s: Seq<char>) -> Seq<char>;

/// What `str::to_uppercase` returns for a string (full Unicode case mapping).
pub uninterp spec fn uppercase(s: Seq<char>) -> Seq<char>;

/// `c` with an ASCII upper-case letter made lower-case.
pub open spec fn ascii_lower(c: char) -> char {
    if 'A' <= c && c <= 'Z' {
        ((c as u32) + 32) as char
    } else {
        c
    }
}

/// `c` with an ASCII lower-case letter made upper-case.
pub open spec fn ascii_upper(c: char) -> char {
    if 'a' <= c && c <= 'z' {
        ((c as u32) - 32) as char
    } else {
        c
    }
}

/// Every character of `s` is ASCII.
pub open spec fn all_ascii(s: Seq<char>) -> bool {
    forall|i: int| 0 <= i < s.len() ==> (#[trigger] s[i] as u32) < 128
}

/// `str::to_lowercase`: the result depends on the characters of `s` alone and
/// is named `lowercase`; the Unicode case tables are not written out here,
/// only that ASCII text maps letter for letter.
#[verifier::external_body]
pub(crate) fn to_lower(s: &str) -> (r: String)
    ensures
        r@ == lowercase(s@),
        all_ascii(s@) ==> r@ == s@.map_values(|c: char| ascii_lower(c)),
{
    s.to_lowercase()
}

/// `str::to_uppercase`: the result depends on the characters of `s` alone and
/// is named `uppercase`; the Unicode case tables are not written out here,
/// only that ASCII text maps letter for letter.
#[verifier::external_body]
pub(crate) fn to_upper(s: &str) -> (r: String)
    ensures
        r@ == uppercase(s@),
        all_ascii(s@) ==> r@ == s@.map_values(|c: char| ascii_upper(c)),
{
    s.to_uppercase()
}

} // verus!

verus! {

/// What `String::from_utf8_lossy` returns for `b`: the decoded characters,
/// with each invalid sequence replaced by U+FFFD.
pub uninterp spec fn utf8_lossy(b: Seq<u8>) -> Seq<char>;

/// `String::from_utf8_lossy`. The replacement of invalid sequences is named
/// `utf8_lossy`; what is stated is that valid UTF-8 decodes unchanged, as the
/// documentation says.
#[verifier::external_body]
pub(crate) fn from_utf8_lossy(b: &[u8]) -> (r: String)
    ensures
        r@ == utf8_lossy(b@),
        vstd::utf8::valid_utf8(b@) ==> r@ == vstd::utf8::decode_utf8(b@),
{
    String::from_utf8_lossy(b).to_string()
}

/// The text of the bytes `b`: their UTF-8 decoding when they are valid
/// UTF-8, else what `from_utf8_lossy` makes of them.
pub open spec fn lossy_text(b: Seq<u8>) -> Seq<char> {
    if vstd::utf8::valid_utf8(b) {
        vstd::utf8::decode_utf8(b)
    } else {
        utf8_lossy(b)
    }
}

/// Index of the first `c` in `s`, or `s.len()` when there is none.
pub open spec fn index_of(s: Seq<char>, c: char) -> int
    decreases s.len(),
{
    if s.len() == 0 {
        0
    } else if s[0] == c {
        0
    } else {
        1 + index_of(s.drop_first(), c)
    }
}

pub proof fn lemma_index_of(s: Seq<char>, c: char, k: int)
    requires
        0 <= k <= s.len(),
        forall|j: int| 0 <= j < k ==> s[j] != c,
        k == s.len() || s[k] == c,
    ensures
        index_of(s, c) == k,
    decreases k,
{
    if k > 0 {
        lemma_index_of(s.drop_first(), c, k - 1);
    }
}

pub proof fn lemma_index_of_bounds(s: Seq<char>, c: char)
    ensures
        0 <= index_of(s, c) <= s.len(),
        forall|j: int| 0 <= j < index_of(s, c) ==> s[j] != c,
        index_of(s, c) < s.len() ==> s[index_of(s, c)] == c,
    decreases s.len(),
{
    if s.len() > 0 && s[0] != c {
        lemma_index_of_bounds(s.drop_first(), c);
        assert forall|j: int| 0 <= j < index_of(s, c) implies s[j] != c by {
            if j > 0 {
                assert(s[j] == s.drop_first()[j - 1]);
            }
        }
    }
}

/// The index of the first `c` in `s` at or after `from`, or `s.len()`.
pub fn index_of_from(s: &[char], c: char, from: usize) -> (r: usize)
    requires
        from <= s.len(),
    ensures
        from <= r <= s.len(),
        r - from == index_of(s@.skip(from as int), c),
{
    let mut i = from;
    while i < s.len() && s[i] != c
        invariant
            from <= i <= s.len(),
            forall|j: int| from <= j < i ==> s@[j] != c,
        decreases s.len() - i,
    {
        i += 1;
    }
    proof {
        lemma_index_of(s@.skip(from as int), c, i - from);
    }
    i
}

} // verus!

verus! {

/// A copy of the characters of `s` between `from` and `to`.
pub fn sub_chars(s: &[char], from: usize, to: usize) -> (r: Vec<char>)
    requires
        from <= to <= s.len(),
    ensures
        r@ == s@.subrange(from as int, to as int),
{
    let mut r: Vec<char> = Vec::new();
    let mut i = from;
    while i < to
        invariant
            from <= i <= to <= s.len(),
            r@ == s@.subrange(from as int, i as int),
        decreases to - i,
    {
        r.push(s[i]);
        i += 1;
        assert(r@ =~= s@.subrange(from as int, i as int));
    }
    r
}

/// Whether `a` and `b` hold the same characters.
pub fn eq_chars(a: &[char], b: &[char]) -> (r: bool)
    ensures
        r == (a@ == b@),
{
    if a.len() != b.len() {
        return false;
    }
    let mut i: usize = 0;
    while i < a.len()
        invariant
            a.len() == b.len(),
            i <= a.len(),
            forall|j: int| 0 <= j < i ==> a@[j] == b@[j],
        decreases a.len() - i,
    {
        if a[i] != b[i] {
            return false;
        }
        i += 1;
    }
    assert(a@ =~= b@);
    true
}

/// Whether the characters of `s` equal those of `lit`.
pub fn eq_str(s: &[char], lit: &str) -> (r: bool)
    ensures
        r == (s@ == lit@),
{
    let l = chars_of(lit);
    eq_chars(s, l.as_slice())
}

/// Whether `p` occurs in `s` at index `at`.
pub fn has_prefix_at(s: &[char], p: &[char], at: usize, end: usize) -> (r: bool)
    requires
        at <= end <= s.len(),
    ensures
        r == (p.len() <= end - at && s@.subrange(at as int, end as int).take(p.len() as int) == p@),
{
    if p.len() > end - at {
        return false;
    }
    let r = matches_at(s, p, at);
    assert(s@.subrange(at as int, end as int).take(p.len() as int) =~= s@.subrange(
        at as int,
        at + p.len(),
    ));
    r
}

} // verus!

verus! {

/// The first index where `n` occurs in `h` (`str::find`, counted in chars).
pub open spec fn find_spec(h: Seq<char>, n: Seq<char>) -> Option<int>
    decreases h.len(),
{
    if occurs_at(h, n, 0) {
        Some(0)
    } else if h.len() == 0 {
        None
    } else {
        match find_spec(h.drop_first(), n) {
            Some(i) => Some(i + 1),
            None => None,
        }
    }
}

proof fn lemma_occurs_shift(h: Seq<char>, n: Seq<char>, j: int)
    requires
        h.len() > 0,
        j >= 1,
    ensures
        occurs_at(h, n, j) == occurs_at(h.drop_first(), n, j - 1),
{
    if j + n.len() <= h.len() {
        assert(h.subrange(j, j + n.len()) =~= h.drop_first().subrange(j - 1, j - 1 + n.len()));
    }
}

pub proof fn lemma_find_spec(h: Seq<char>, n: Seq<char>, r: Option<usize>)
    requires
        first_occurrence_from(h, n, 0, r),
    ensures
        find_spec(h, n) == (match r {
            Some(i) => Some(i as int),
            None => None::<int>,
        }),
    decreases h.len(),
{
    if occurs_at(h, n, 0) {
    } else if h.len() == 0 {
        if let Some(i) = r {
            assert(occurs_at(h, n, i as int));
        }
    } else {
        let r2: Option<usize> = match r {
            Some(i) => Some((i - 1) as usize),
            None => None,
        };
        assert forall|j: int| 0 <= j && (r is None || j < r->0 - 1) implies !occurs_at(h.drop_first(), n, j) by {
            lemma_occurs_shift(h, n, j + 1);
        }
        if let Some(i) = r {
            assert(i >= 1);
            lemma_occurs_shift(h, n, i as int);
        }
        lemma_find_spec(h.drop_first(), n, r2);
    }
}

/// The first index where `n` occurs in `h`.
pub fn find(h: &[char], n: &[char]) -> (r: Option<usize>)
    ensures
        find_spec(h@, n@) == (match r {
            Some(i) => Some(i as int),
            None => None::<int>,
        }),
        r matches Some(i) ==> occurs_at(h@, n@, i as int),
{
    let r = find_from(h, n, 0);
    proof {
        lemma_find_spec(h@, n@, r);
    }
    r
}

} // verus!

verus! {

/// Whether the text `lit` occurs in `h`.
pub fn contains_str(h: &[char], lit: &str) -> (r: bool)
    ensures
        r == has_sub(h@, lit@),
{
    let n = chars_of(lit);
    contains_chars(h, n.as_slice())
}

} // verus!
