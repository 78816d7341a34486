//! Character-level text helpers used by the download logic: the parts of
//! `str` that the logic leans on (trimming, searching, splitting, decimal
//! numbers), each stated over `Seq<char>` and implemented on `Vec<char>`.

use vstd::prelude::*;

verus! {

/// Unicode `White_Space`, the property that `char::is_whitespace` and
/// `str::trim` go by.
pub open spec fn is_white(c: char) -> bool {
    let u = c as u32;
    ||| (0x9 <= u && u <= 0xd)
    ||| u == 0x20
    ||| u == 0x85
    ||| u == 0xa0
    ||| u == 0x1680
    ||| (0x2000 <= u && u <= 0x200a)
    ||| u == 0x2028
    ||| u == 0x2029
    ||| u == 0x202f
    ||| u == 0x205f
    ||| u == 0x3000
}

/// `s` without its leading white space.
pub open spec fn trim_start(s: Seq<char>) -> Seq<char>
    decreases s.len(),
{
    if s.len() > 0 && is_white(s[0]) {
        trim_start(s.drop_first())
    } else {
        s
    }
}

/// `s` without its trailing white space.
pub open spec fn trim_end(s: Seq<char>) -> Seq<char>
    decreases s.len(),
{
    if s.len() > 0 && is_white(s.last()) {
        trim_end(s.drop_last())
    } else {
        s
    }
}

/// `s` without leading and trailing white space, as `str::trim` gives it.
pub open spec fn trim(s: Seq<char>) -> Seq<char> {
    trim_end(trim_start(s))
}

/// Every character of `s` is white space.
pub open spec fn all_white(s: Seq<char>) -> bool {
    forall|i: int| 0 <= i < s.len() ==> is_white(#[trigger] s[i])
}

proof fn lemma_trim_end_empty(t: Seq<char>)
    ensures
        (trim_end(t).len() == 0) == all_white(t),
    decreases t.len(),
{
    if t.len() > 0 {
        let d = t.drop_last();
        lemma_trim_end_empty(d);
        if is_white(t.last()) {
            if all_white(d) {
                assert forall|i: int| 0 <= i < t.len() implies is_white(#[trigger] t[i]) by {
                    if i < d.len() {
                        assert(t[i] == d[i]);
                    }
                }
            }
            if all_white(t) {
                assert forall|i: int| 0 <= i < d.len() implies is_white(#[trigger] d[i]) by {
                    assert(t[i] == d[i]);
                }
            }
        } else {
            assert(!is_white(t[t.len() - 1]));
        }
    }
}

proof fn lemma_trim_start_white(s: Seq<char>)
    ensures
        all_white(trim_start(s)) == all_white(s),
    decreases s.len(),
{
    if s.len() > 0 && is_white(s[0]) {
        let d = s.drop_first();
        lemma_trim_start_white(d);
        if all_white(d) {
            assert forall|i: int| 0 <= i < s.len() implies is_white(#[trigger] s[i]) by {
                if i > 0 {
                    assert(s[i] == d[i - 1]);
                }
            }
        }
        if all_white(s) {
            assert forall|i: int| 0 <= i < d.len() implies is_white(#[trigger] d[i]) by {
                assert(d[i] == s[i + 1]);
            }
        }
    }
}

/// Trimming leaves nothing exactly when the text is all white space.
pub proof fn lemma_trim_empty_iff_blank(s: Seq<char>)
    ensures
        (trim(s).len() == 0) == all_white(s),
{
    lemma_trim_start_white(s);
    lemma_trim_end_empty(trim_start(s));
}

/// `pat` occurs in `s` starting at index `i`.
pub open spec fn occurs_at(s: Seq<char>, pat: Seq<char>, i: int) -> bool {
    &&& 0 <= i
    &&& i + pat.len() <= s.len()
    &&& s.subrange(i, i + pat.len()) == pat
}

/// `pat` occurs somewhere in `s` (the empty pattern occurs in every string).
pub open spec fn contains(s: Seq<char>, pat: Seq<char>) -> bool {
    exists|i: int| occurs_at(s, pat, i)
}

/// `s` starts with `pat`.
pub open spec fn starts_with(s: Seq<char>, pat: Seq<char>) -> bool {
    occurs_at(s, pat, 0)
}

/// An ASCII decimal digit.
pub open spec fn is_digit(c: char) -> bool {
    '0' <= c && c <= '9'
}

/// The value of an ASCII decimal digit.
pub open spec fn digit_value(c: char) -> nat {
    ((c as u32) - ('0' as u32)) as nat
}

/// The number that a string of decimal digits spells.
pub open spec fn decimal_value(d: Seq<char>) -> nat
    decreases d.len(),
{
    if d.len() == 0 {
        0
    } else {
        decimal_value(d.drop_last()) * 10 + digit_value(d.last())
    }
}

/// Every character of `d` is an ASCII decimal digit.
pub open spec fn all_digits(d: Seq<char>) -> bool {
    forall|i: int| 0 <= i < d.len() ==> is_digit(#[trigger] d[i])
}

/// What `s.parse::<u64>()` gives: an optional `+`, then at least one decimal
/// digit and nothing else, of a value that fits in `u64`.
pub open spec fn parse_u64(s: Seq<char>) -> Option<u64> {
    let d = if s.len() > 0 && s[0] == '+' {
        s.drop_first()
    } else {
        s
    };
    if d.len() > 0 && all_digits(d) && decimal_value(d) <= u64::MAX {
        Some(decimal_value(d) as u64)
    } else {
        None
    }
}

/// The ASCII digit for a value below ten.
pub open spec fn digit_char(v: nat) -> char {
    (('0' as u32) + v) as char
}

/// The decimal spelling of `n`, without sign or leading zeros, as `Display`
/// writes an unsigned integer.
pub open spec fn decimal(n: nat) -> Seq<char>
    decreases n,
{
    if n < 10 {
        seq![digit_char(n)]
    } else {
        decimal(n / 10).push(digit_char(n % 10))
    }
}

/// The index just after the last occurrence of `c` in `s`, if `c` occurs.
pub open spec fn last_index_of(s: Seq<char>, c: char) -> Option<int>
    decreases s.len(),
{
    if s.len() == 0 {
        None
    } else if s.last() == c {
        Some(s.len() - 1)
    } else {
        last_index_of(s.drop_last(), c)
    }
}

/// What `s.rsplit_once(c)` gives: the text before and after the last `c`.
pub open spec fn rsplit_once(s: Seq<char>, c: char) -> Option<(Seq<char>, Seq<char>)> {
    match last_index_of(s, c) {
        Some(i) => Some((s.subrange(0, i), s.subrange(i + 1, s.len() as int))),
        None => None,
    }
}

/// The ASCII lower-case form of one character; other characters stay.
pub open spec fn ascii_lower(c: char) -> char {
    if 'A' <= c && c <= 'Z' {
        ((c as u32) + 32) as char
    } else {
        c
    }
}

/// `s` with every ASCII upper-case letter made lower-case.
pub open spec fn to_ascii_lower(s: Seq<char>) -> Seq<char> {
    s.map_values(|c: char| ascii_lower(c))
}

/// The characters of `s`, in order.
pub fn chars_of(s: &str) -> (r: Vec<char>)
    ensures
        r@ == s@,
{
    let mut r: Vec<char> = Vec::new();
    for c in it: s.chars()
        invariant
            r@ == it.seq().take(it.index()),
    {
        r.push(c);
    }
    r
}

/// A `String` that holds the characters of `v`, in order.
///
/// Trusted: the body is `String::from_iter` over `&char`, which std documents
/// as collecting the characters into a string; the contract claims exactly
/// that the result's characters are `v`'s.
#[verifier::external_body]
pub fn string_from_chars(v: &Vec<char>) -> (r: String)
    ensures
        r@ == v@,
{
    String::from_iter(v)
}

/// The characters of `s` as a `String`.
pub fn to_string(s: &str) -> (r: String)
    ensures
        r@ == s@,
{
    let v = chars_of(s);
    string_from_chars(&v)
}

/// Whether two character sequences are equal.
pub fn same_chars(a: &Vec<char>, b: &Vec<char>) -> (r: bool)
    ensures
        r == (a@ == b@),
{
    if a.len() != b.len() {
        assert(a@.len() != b@.len());
        return false;
    }
    let mut i: usize = 0;
    while i < a.len()
        invariant
            i <= a.len(),
            a.len() == b.len(),
            forall|j: int| 0 <= j < i ==> a@[j] == b@[j],
        decreases a.len() - i,
    {
        if a[i] != b[i] {
            assert(a@[i as int] != b@[i as int]);
            return false;
        }
        i = i + 1;
    }
    assert(a@ =~= b@);
    true
}

/// Whether two strings hold the same characters.
pub fn str_eq(a: &str, b: &str) -> (r: bool)
    ensures
        r == (a@ == b@),
{
    let x = chars_of(a);
    let y = chars_of(b);
    same_chars(&x, &y)
}

/// Whether `c` is Unicode white space (`char::is_whitespace`).
pub fn is_white_char(c: char) -> (b: bool)
    ensures
        b == is_white(c),
{
    let u = c as u32;
    (0x9 <= u && u <= 0xd) || u == 0x20 || u == 0x85 || u == 0xa0 || u == 0x1680 || (0x2000 <= u
        && u <= 0x200a) || u == 0x2028 || u == 0x2029 || u == 0x202f || u == 0x205f || u == 0x3000
}

proof fn lemma_trim_start_skips(s: Seq<char>, i: int)
    requires
        0 <= i <= s.len(),
        forall|j: int| 0 <= j < i ==> is_white(#[trigger] s[j]),
    ensures
        trim_start(s) == trim_start(s.subrange(i, s.len() as int)),
    decreases i,
{
    if i > 0 {
        assert(is_white(s[0]));
        let t = s.drop_first();
        assert forall|j: int| 0 <= j < i - 1 implies is_white(#[trigger] t[j]) by {
            assert(t[j] == s[j + 1]);
        }
        lemma_trim_start_skips(t, i - 1);
        assert(t.subrange(i - 1, t.len() as int) =~= s.subrange(i, s.len() as int));
    } else {
        assert(s.subrange(0, s.len() as int) =~= s);
    }
}

proof fn lemma_trim_end_skips(s: Seq<char>, k: int)
    requires
        0 <= k <= s.len(),
        forall|j: int| k <= j < s.len() ==> is_white(#[trigger] s[j]),
    ensures
        trim_end(s) == trim_end(s.subrange(0, k)),
    decreases s.len() - k,
{
    if k < s.len() {
        assert(is_white(s.last()));
        let t = s.drop_last();
        assert forall|j: int| k <= j < t.len() implies is_white(#[trigger] t[j]) by {
            assert(t[j] == s[j]);
        }
        lemma_trim_end_skips(t, k);
        assert(t.subrange(0, k) =~= s.subrange(0, k));
    } else {
        assert(s.subrange(0, k) =~= s);
    }
}

/// The characters of `s` without leading and trailing white space
/// (`str::trim`).
pub fn trim_chars(s: &Vec<char>) -> (r: Vec<char>)
    ensures
        r@ == trim(s@),
{
    let n = s.len();
    let mut i: usize = 0;
    while i < n && is_white_char(s[i])
        invariant
            i <= n,
            n == s.len(),
            forall|j: int| 0 <= j < i ==> is_white(#[trigger] s@[j]),
        decreases n - i,
    {
        i = i + 1;
    }
    proof {
        lemma_trim_start_skips(s@, i as int);
    }
    let ghost t = s@.subrange(i as int, n as int);
    assert(trim_start(t) == t);
    let mut k: usize = n;
    while k > i && is_white_char(s[k - 1])
        invariant
            i <= k <= n,
            n == s.len(),
            forall|j: int| k <= j < n ==> is_white(#[trigger] s@[j]),
        decreases k,
    {
        k = k - 1;
    }
    proof {
        assert forall|j: int| k - i <= j < t.len() implies is_white(#[trigger] t[j]) by {
            assert(t[j] == s@[j + i]);
        }
        lemma_trim_end_skips(t, k - i);
        let u = t.subrange(0, k - i);
        assert(u =~= s@.subrange(i as int, k as int));
        if u.len() > 0 {
            assert(u.last() == s@[k - 1]);
        }
    }
    let mut r: Vec<char> = Vec::new();
    let mut j: usize = i;
    while j < k
        invariant
            i <= j <= k <= n,
            n == s.len(),
            r@ == s@.subrange(i as int, j as int),
        decreases k - j,
    {
        r.push(s[j]);
        j = j + 1;
        assert(r@ =~= s@.subrange(i as int, j as int));
    }
    r
}

/// Whether `pat` occurs in `s` starting at `i`.
pub fn occurs_at_exec(s: &Vec<char>, pat: &Vec<char>, i: usize) -> (b: bool)
    ensures
        b == occurs_at(s@, pat@, i as int),
{
    if i > s.len() || pat.len() > s.len() - i {
        return false;
    }
    let mut j: usize = 0;
    while j < pat.len()
        invariant
            j <= pat.len(),
            i + pat.len() <= s.len(),
            forall|m: int| 0 <= m < j ==> s@[i + m] == pat@[m],
        decreases pat.len() - j,
    {
        if s[i + j] != pat[j] {
            assert(s@.subrange(i as int, i + pat.len())[j as int] != pat@[j as int]);
            return false;
        }
        j = j + 1;
    }
    assert(s@.subrange(i as int, i + pat.len()) =~= pat@);
    true
}

/// Whether `pat` occurs anywhere in `s` (`str::contains`).
pub fn contains_chars(s: &Vec<char>, pat: &Vec<char>) -> (b: bool)
    ensures
        b == contains(s@, pat@),
{
    if pat.len() > s.len() {
        assert forall|i: int| !occurs_at(s@, pat@, i) by {}
        return false;
    }
    let last = s.len() - pat.len();
    let mut i: usize = 0;
    while i < last
        invariant
            i <= last,
            last == s.len() - pat.len(),
            pat.len() <= s.len(),
            forall|m: int| 0 <= m < i ==> !occurs_at(s@, pat@, m),
        decreases last - i,
    {
        if occurs_at_exec(s, pat, i) {
            return true;
        }
        i = i + 1;
    }
    if occurs_at_exec(s, pat, last) {
        return true;
    }
    assert forall|m: int| !occurs_at(s@, pat@, m) by {
        if 0 <= m < i {
        }
    }
    false
}

/// Whether `s` starts with `pat` (`str::starts_with`).
pub fn starts_with_chars(s: &Vec<char>, pat: &Vec<char>) -> (b: bool)
    ensures
        b == starts_with(s@, pat@),
{
    occurs_at_exec(s, pat, 0)
}

proof fn lemma_decimal_value_grows(d: Seq<char>, i: int, j: int)
    requires
        0 <= i <= j <= d.len(),
    ensures
        decimal_value(d.take(i)) <= decimal_value(d.take(j)),
    decreases j - i,
{
    if i < j {
        lemma_decimal_value_grows(d, i, j - 1);
        assert(d.take(j).drop_last() =~= d.take(j - 1));
    }
}

/// `s.parse::<u64>()`, its error dropped.
pub fn parse_u64_chars(s: &Vec<char>) -> (r: Option<u64>)
    ensures
        r == parse_u64(s@),
{
    let n = s.len();
    let start: usize = if n > 0 && s[0] == '+' {
        1
    } else {
        0
    };
    let ghost d = if s@.len() > 0 && s@[0] == '+' {
        s@.drop_first()
    } else {
        s@
    };
    assert(d =~= s@.subrange(start as int, n as int));
    if start >= n {
        return None;
    }
    let mut acc: u64 = 0;
    let mut i: usize = start;
    while i < n
        invariant
            start <= i <= n,
            n == s.len(),
            d == s@.subrange(start as int, n as int),
            d == (if s@.len() > 0 && s@[0] == '+' {
                s@.drop_first()
            } else {
                s@
            }),
            acc as nat == decimal_value(d.take(i - start)),
            all_digits(d.take(i - start)),
        decreases n - i,
    {
        let c = s[i];
        assert(d[i - start] == c);
        if !('0' <= c && c <= '9') {
            assert(!is_digit(d[i - start]));
            assert(0 <= i - start < d.len());
            assert(!all_digits(d));
            assert(parse_u64(s@) is None);
            return None;
        }
        let v = (c as u32 - '0' as u32) as u64;
        assert(d.take(i + 1 - start).drop_last() =~= d.take(i - start));
        assert(d.take(i + 1 - start).last() == c);
        if acc > (u64::MAX - v) / 10 {
            proof {
                assert(acc * 10 + v > u64::MAX) by (nonlinear_arith)
                    requires
                        acc > (u64::MAX - v) / 10,
                        v <= 9,
                ;
                assert(digit_value(c) == v);
                assert(decimal_value(d.take(i + 1 - start)) == decimal_value(d.take(i - start)) * 10
                    + digit_value(c));
                lemma_decimal_value_grows(d, i + 1 - start, d.len() as int);
                assert(d.take(d.len() as int) =~= d);
                assert(decimal_value(d) > u64::MAX);
            }
            return None;
        }
        proof {
            assert(acc * 10 + v <= u64::MAX) by (nonlinear_arith)
                requires
                    acc <= (u64::MAX - v) / 10,
                    v <= 9,
            ;
        }
        acc = acc * 10 + v;
        i = i + 1;
        assert forall|m: int| 0 <= m < d.take(i - start).len() implies is_digit(
            #[trigger] d.take(i - start)[m],
        ) by {
            if m < i - 1 - start {
                assert(d.take(i - start)[m] == d.take(i - 1 - start)[m]);
            }
        }
    }
    assert(d.take(n - start) =~= d);
    Some(acc)
}

/// `s.parse::<u64>().ok()` on a `&str`.
pub fn parse_u64_str(s: &str) -> (r: Option<u64>)
    ensures
        r == parse_u64(s@),
{
    let v = chars_of(s);
    parse_u64_chars(&v)
}

proof fn lemma_decimal_digits(n: nat)
    ensures
        decimal(n).len() > 0,
        all_digits(decimal(n)),
        decimal_value(decimal(n)) == n,
    decreases n,
{
    if n >= 10 {
        lemma_decimal_digits(n / 10);
        let p = decimal(n / 10);
        let d = p.push(digit_char(n % 10));
        assert(d.drop_last() =~= p);
        assert(digit_value(digit_char(n % 10)) == n % 10);
        assert(decimal_value(d) == decimal_value(p) * 10 + digit_value(d.last()));
        assert((n / 10) * 10 + n % 10 == n);
        assert forall|i: int| 0 <= i < d.len() implies is_digit(#[trigger] d[i]) by {
            if i < p.len() {
                assert(d[i] == p[i]);
            }
        }
    } else {
        assert(digit_value(digit_char(n)) == n);
        assert(seq![digit_char(n)].drop_last() =~= Seq::<char>::empty());
        assert(decimal_value(Seq::<char>::empty()) == 0);
        assert(decimal_value(seq![digit_char(n)]) == n);
    }
}

/// A decimal spelling holds digits only.
pub proof fn lemma_decimal_is_digits(n: nat)
    ensures
        all_digits(decimal(n)),
{
    lemma_decimal_digits(n);
}

/// Reading back a number that was written in decimal gives the number.
pub proof fn lemma_parse_decimal_round_trip(n: u64)
    ensures
        parse_u64(decimal(n as nat)) == Some(n),
        trim(decimal(n as nat)) == decimal(n as nat),
{
    let d = decimal(n as nat);
    lemma_decimal_digits(n as nat);
    assert(is_digit(d[0]));
    assert(is_digit(d.last()));
    assert(trim_start(d) == d);
    assert(trim_end(d) == d);
}

/// The decimal spelling of `n`, as `n.to_string()` writes it.
pub fn decimal_chars(n: u64) -> (r: Vec<char>)
    ensures
        r@ == decimal(n as nat),
    decreases n,
{
    let d = n % 10;
    let c = char_for_digit(d);
    if n < 10 {
        let mut r: Vec<char> = Vec::new();
        r.push(c);
        assert(r@ =~= seq![digit_char(n as nat)]);
        r
    } else {
        let mut r = decimal_chars(n / 10);
        r.push(c);
        r
    }
}

fn char_for_digit(d: u64) -> (c: char)
    requires
        d < 10,
    ensures
        c == digit_char(d as nat),
{
    if d == 0 {
        '0'
    } else if d == 1 {
        '1'
    } else if d == 2 {
        '2'
    } else if d == 3 {
        '3'
    } else if d == 4 {
        '4'
    } else if d == 5 {
        '5'
    } else if d == 6 {
        '6'
    } else if d == 7 {
        '7'
    } else if d == 8 {
        '8'
    } else {
        '9'
    }
}

/// `s.rsplit_once(c)`: the characters before and after the last `c`.
pub fn rsplit_once_chars(s: &Vec<char>, c: char) -> (r: Option<(Vec<char>, Vec<char>)>)
    ensures
        match rsplit_once(s@, c) {
            Some((a, b)) => r matches Some((x, y)) && x@ == a && y@ == b,
            None => r is None,
        },
{
    let n = s.len();
    let mut k: usize = n;
    assert(s@.take(n as int) =~= s@);
    while k > 0 && s[k - 1] != c
        invariant
            k <= n,
            n == s.len(),
            last_index_of(s@, c) == last_index_of(s@.take(k as int), c),
        decreases k,
    {
        assert(s@.take(k as int).drop_last() =~= s@.take(k - 1));
        k = k - 1;
    }
    if k == 0 {
        assert(s@.take(0) =~= Seq::<char>::empty());
        return None;
    }
    assert(s@.take(k as int).last() == c);
    let mut a: Vec<char> = Vec::new();
    let mut j: usize = 0;
    while j < k - 1
        invariant
            j <= k - 1,
            0 < k <= n,
            n == s.len(),
            a@ == s@.subrange(0, j as int),
        decreases k - 1 - j,
    {
        a.push(s[j]);
        j = j + 1;
        assert(a@ =~= s@.subrange(0, j as int));
    }
    let mut b: Vec<char> = Vec::new();
    let mut m: usize = k;
    while m < n
        invariant
            k <= m <= n,
            n == s.len(),
            b@ == s@.subrange(k as int, m as int),
        decreases n - m,
    {
        b.push(s[m]);
        m = m + 1;
        assert(b@ =~= s@.subrange(k as int, m as int));
    }
    Some((a, b))
}

/// `s` with its ASCII upper-case letters made lower-case
/// (`str::to_ascii_lowercase`).
pub fn to_ascii_lower_chars(s: &Vec<char>) -> (r: Vec<char>)
    ensures
        r@ == to_ascii_lower(s@),
{
    let mut r: Vec<char> = Vec::new();
    let mut i: usize = 0;
    while i < s.len()
        invariant
            i <= s.len(),
            r@ == to_ascii_lower(s@.take(i as int)),
        decreases s.len() - i,
    {
        let c = s[i];
        let l = if 'A' <= c && c <= 'Z' {
            ((c as u32) + 32) as u8 as char
        } else {
            c
        };
        proof {
            if 'A' <= c && c <= 'Z' {
                assert(((c as u32) + 32) as u8 as char == ((c as u32) + 32) as char);
            }
        }
        r.push(l);
        i = i + 1;
        assert(r@ =~= to_ascii_lower(s@.take(i as int)));
    }
    assert(s@.take(s.len() as int) =~= s@);
    r
}

/// `a` and `b` are equal but for ASCII case (`str::eq_ignore_ascii_case`).
pub fn eq_ignore_ascii_case_chars(a: &Vec<char>, b: &Vec<char>) -> (r: bool)
    ensures
        r == (to_ascii_lower(a@) == to_ascii_lower(b@)),
{
    let la = to_ascii_lower_chars(a);
    let lb = to_ascii_lower_chars(b);
    if la.len() != lb.len() {
        assert(la@.len() != lb@.len());
        return false;
    }
    let mut i: usize = 0;
    while i < la.len()
        invariant
            i <= la.len(),
            la.len() == lb.len(),
            la@ == to_ascii_lower(a@),
            lb@ == to_ascii_lower(b@),
            forall|j: int| 0 <= j < i ==> la@[j] == lb@[j],
        decreases la.len() - i,
    {
        if la[i] != lb[i] {
            assert(la@[i as int] != lb@[i as int]);
            return false;
        }
        i = i + 1;
    }
    assert(la@ =~= lb@);
    true
}

} // verus!
