//! Character-level string helpers shared by the parsers and formatters.
use vstd::prelude::*;

verus! {

/// Appends one character to a string (`String::push`).
#[verifier::external_body]
pub(crate) fn push_char(s: &mut String, c: char)
    ensures
        final(s)@ == old(s)@.push(c),
{
    s.push(c);
}

/// The characters of `s`, in order.
pub fn chars_of(s: &str) -> (v: Vec<char>)
    ensures
        v@ == s@,
{
    let mut v: Vec<char> = Vec::new();
    for c in it: s.chars()
        invariant
            v@ == it.seq().take(it.index() as int),
            it.seq() == s@,
    {
        v.push(c);
    }
    v
}


/// Whether two strings hold the same characters.
pub fn str_equal(a: &str, b: &str) -> (r: bool)
    ensures
        r == (a@ == b@),
{
    let va = chars_of(a);
    let vb = chars_of(b);
    if va.len() != vb.len() {
        return false;
    }
    let n = va.len();
    for i in 0..n
        invariant
            n == va@.len(),
            n == vb@.len(),
            va@ == a@,
            vb@ == b@,
            forall|j: int| 0 <= j < i ==> va@[j] == vb@[j],
    {
        if va[i] != vb[i] {
            return false;
        }
    }
    assert(va@ =~= vb@);
    true
}

/// A new string holding `a` followed by `b`.
pub fn concat_str(a: &str, b: &str) -> (s: String)
    ensures
        s@ == a@ + b@,
{
    let mut s = a.to_owned();
    s.append(b);
    s
}

/// The decimal digit character for `d < 10`.
pub open spec fn digit_char(d: int) -> char {
    (('0' as int) + d) as char
}

/// The decimal representation of `n`, without leading zeros.
pub open spec fn decimal(n: nat) -> Seq<char>
    decreases n,
{
    if n < 10 {
        seq![digit_char(n as int)]
    } else {
        decimal(n / 10).push(digit_char((n % 10) as int))
    }
}

/// The decimal representation of a signed integer, with a leading `-` when negative.
pub open spec fn signed_decimal(v: int) -> Seq<char> {
    if v < 0 {
        seq!['-'] + decimal((-v) as nat)
    } else {
        decimal(v as nat)
    }
}

fn digit_of(d: u64) -> (c: char)
    requires
        d < 10,
    ensures
        c == digit_char(d as int),
{
    let c: char = match d {
        0 => '0',
        1 => '1',
        2 => '2',
        3 => '3',
        4 => '4',
        5 => '5',
        6 => '6',
        7 => '7',
        8 => '8',
        _ => '9',
    };
    c
}

/// Appends the decimal representation of `n` to `s`.
pub fn push_decimal(s: &mut String, n: u64)
    ensures
        final(s)@ == old(s)@ + decimal(n as nat),
    decreases n,
{
    if n < 10 {
        push_char(s, digit_of(n));
    } else {
        push_decimal(s, n / 10);
        push_char(s, digit_of(n % 10));
    }
}

/// `v` written in decimal with a leading `-` when negative (`i64::to_string`).
pub fn i64_to_decimal(v: i64) -> (s: String)
    ensures
        s@ == signed_decimal(v as int),
{
    let mut s = String::new();
    if v < 0 {
        push_char(&mut s, '-');
        let magnitude: u64 = ((-(v + 1)) as u64) + 1;
        push_decimal(&mut s, magnitude);
    } else {
        push_decimal(&mut s, v as u64);
    }
    s
}


pub open spec fn is_digit(c: char) -> bool {
    '0' <= c <= '9'
}

pub open spec fn all_digits(s: Seq<char>) -> bool {
    forall|i: int| 0 <= i < s.len() ==> is_digit(#[trigger] s[i])
}

/// The value of a string of decimal digits.
pub open spec fn digits_value(s: Seq<char>) -> int
    decreases s.len(),
{
    if s.len() == 0 {
        0
    } else {
        digits_value(s.drop_last()) * 10 + (s.last() as int - '0' as int)
    }
}

/// What `str::parse::<i64>` gives: an optional `+` or `-` followed by at
/// least one ASCII decimal digit, whose value fits in an `i64`.
pub open spec fn spec_parse_i64(s: Seq<char>) -> Option<i64> {
    if s.len() == 0 {
        None
    } else {
        let negative = s[0] == '-';
        let body = if s[0] == '-' || s[0] == '+' { s.drop_first() } else { s };
        if body.len() == 0 || !all_digits(body) {
            None
        } else {
            let v = if negative { -digits_value(body) } else { digits_value(body) };
            if i64::MIN <= v <= i64::MAX {
                Some(v as i64)
            } else {
                None
            }
        }
    }
}

proof fn lemma_digits_value_nonneg(s: Seq<char>)
    requires
        all_digits(s),
    ensures
        digits_value(s) >= 0,
    decreases s.len(),
{
    if s.len() > 0 {
        lemma_digits_value_nonneg(s.drop_last());
    }
}

proof fn lemma_digits_value_step(s: Seq<char>, k: int)
    requires
        0 <= k < s.len(),
    ensures
        digits_value(s.take(k + 1)) == digits_value(s.take(k)) * 10 + (s[k] as int - '0' as int),
{
    assert(s.take(k + 1).drop_last() =~= s.take(k));
}

proof fn lemma_digits_value_prefix_le(s: Seq<char>, k: int)
    requires
        all_digits(s),
        0 <= k <= s.len(),
    ensures
        digits_value(s.take(k)) <= digits_value(s),
    decreases s.len() - k,
{
    if k < s.len() {
        lemma_digits_value_step(s, k);
        assert(all_digits(s.take(k)));
        lemma_digits_value_nonneg(s.take(k));
        lemma_digits_value_prefix_le(s, k + 1);
    } else {
        assert(s.take(k) =~= s);
    }
}

fn digit_value(c: char) -> (d: i64)
    requires
        is_digit(c),
    ensures
        d == c as int - '0' as int,
        0 <= d <= 9,
{
    (c as u32 - '0' as u32) as i64
}

/// `s.parse::<i64>().ok()`.
pub fn parse_i64(s: &str) -> (r: Option<i64>)
    ensures
        r == spec_parse_i64(s@),
{
    let v = chars_of(s);
    let n = v.len();
    if n == 0 {
        return None;
    }
    let negative = v[0] == '-';
    let start: usize = if v[0] == '-' || v[0] == '+' { 1 } else { 0 };
    let ghost body = if v@[0] == '-' || v@[0] == '+' { v@.drop_first() } else { v@ };
    assert(body =~= v@.subrange(start as int, n as int));
    if start == n {
        return None;
    }
    let mut acc: i64 = 0;
    let mut i = start;
    while i < n
        invariant
            start <= i <= n,
            n == v@.len(),
            n > 0,
            v@ == s@,
            negative == (v@[0] == '-'),
            body == (if v@[0] == '-' || v@[0] == '+' { v@.drop_first() } else { v@ }),
            body.len() > 0,
            body =~= v@.subrange(start as int, n as int),
            all_digits(body.take(i - start)),
            negative ==> acc == -digits_value(body.take(i - start)),
            !negative ==> acc == digits_value(body.take(i - start)),
        decreases n - i,
    {
        let c = v[i];
        if !('0' <= c && c <= '9') {
            assert(body[i - start] == c);
            return None;
        }
        let d = digit_value(c);
        proof {
            lemma_digits_value_step(body, i - start);
            assert(body[i - start] == c);
        }
        let next = if negative {
            match acc.checked_mul(10) {
                Some(m) => m.checked_sub(d),
                None => None,
            }
        } else {
            match acc.checked_mul(10) {
                Some(m) => m.checked_add(d),
                None => None,
            }
        };
        match next {
            Some(a) => {
                acc = a;
            },
            None => {
                proof {
                    assert(body.take(i - start + 1).len() == i - start + 1);
                    if all_digits(body) {
                        lemma_digits_value_prefix_le(body, i - start + 1);
                        lemma_digits_value_nonneg(body.take(i - start));
                    }
                }
                return None;
            },
        }
        i = i + 1;
        proof {
            assert forall|j: int| 0 <= j < i - start implies is_digit(#[trigger] body.take(i - start)[j]) by {
                if j < i - 1 - start {
                    assert(body.take(i - 1 - start)[j] == body.take(i - start)[j]);
                }
            }
        }
    }
    assert(body.take(n - start) =~= body);
    Some(acc)
}

proof fn lemma_decimal_digits(n: nat)
    ensures
        decimal(n).len() > 0,
        all_digits(decimal(n)),
        digits_value(decimal(n)) == n,
    decreases n,
{
    let c = digit_char((n % 10) as int);
    assert(c as int == '0' as int + n % 10);
    if n >= 10 {
        lemma_decimal_digits(n / 10);
        let d = decimal(n / 10).push(c);
        assert(d.drop_last() =~= decimal(n / 10));
        assert(d.last() == c);
        assert(decimal(n) == d);
        assert(digits_value(d) == digits_value(decimal(n / 10)) * 10 + (c as int - '0' as int));
        assert(n == (n / 10) * 10 + n % 10);
        assert(digits_value(decimal(n)) == n);
    } else {
        assert(decimal(n) == seq![c]);
        assert(decimal(n).drop_last() =~= Seq::<char>::empty());
        assert(decimal(n).last() == c);
        assert(digits_value(Seq::<char>::empty()) == 0);
        assert(digits_value(decimal(n)) == n);
    }
}

/// Writing an `i64` in decimal and parsing it back gives the same value.
pub proof fn lemma_parse_signed_decimal(v: i64)
    ensures
        spec_parse_i64(signed_decimal(v as int)) == Some(v),
{
    if v < 0 {
        let m = (-v) as nat;
        lemma_decimal_digits(m);
        let s = seq!['-'] + decimal(m);
        assert(s.drop_first() =~= decimal(m));
        assert(s[0] == '-');
    } else {
        lemma_decimal_digits(v as nat);
        let s = decimal(v as nat);
        assert(is_digit(s[0]));
    }
}


/// The first `n` characters of `s` (all of it when shorter).
pub open spec fn prefix(s: Seq<char>, n: int) -> Seq<char> {
    if n < s.len() {
        s.take(n)
    } else {
        s
    }
}

/// `s.chars().take(n).collect::<String>()`.
pub fn take_chars(s: &str, n: usize) -> (r: String)
    ensures
        r@ == prefix(s@, n as int),
{
    let v = chars_of(s);
    let k = if n < v.len() { n } else { v.len() };
    let mut r = String::new();
    for i in 0..k
        invariant
            k <= v@.len(),
            r@ == v@.take(i as int),
    {
        push_char(&mut r, v[i]);
        assert(v@.take(i + 1) =~= v@.take(i as int).push(v@[i as int]));
    }
    assert(v@.take(k as int) =~= prefix(s@, n as int));
    r
}

/// The pieces of `s` between occurrences of `sep` (`str::split` with a
/// character): one more piece than there are separators.
pub open spec fn split_on(s: Seq<char>, sep: char) -> Seq<Seq<char>>
    decreases s.len(),
{
    if s.len() == 0 {
        seq![Seq::<char>::empty()]
    } else {
        let p = split_on(s.drop_last(), sep);
        if s.last() == sep {
            p.push(Seq::<char>::empty())
        } else {
            p.update(p.len() - 1, p.last().push(s.last()))
        }
    }
}

pub(crate) proof fn lemma_split_on_nonempty(s: Seq<char>, sep: char)
    ensures
        split_on(s, sep).len() >= 1,
    decreases s.len(),
{
    if s.len() > 0 {
        lemma_split_on_nonempty(s.drop_last(), sep);
    }
}

/// The views of a list of strings.
pub open spec fn string_views(v: Seq<String>) -> Seq<Seq<char>> {
    v.map_values(|s: String| s@)
}

/// `s.split(sep)`, collected.
pub fn split_chars(s: &str, sep: char) -> (parts: Vec<String>)
    ensures
        string_views(parts@) == split_on(s@, sep),
{
    let v = chars_of(s);
    let n = v.len();
    let mut parts: Vec<String> = Vec::new();
    let mut cur = String::new();
    for i in 0..n
        invariant
            n == v@.len(),
            v@ == s@,
            string_views(parts@).push(cur@) == split_on(v@.take(i as int), sep),
    {
        let c = v[i];
        let ghost before = string_views(parts@).push(cur@);
        proof {
            lemma_split_on_nonempty(v@.take(i as int), sep);
            assert(v@.take(i + 1).drop_last() =~= v@.take(i as int));
        }
        if c == sep {
            let done = cur;
            parts.push(done);
            cur = String::new();
            assert(string_views(parts@).push(cur@) =~= before.push(Seq::<char>::empty()));
        } else {
            push_char(&mut cur, c);
            assert(string_views(parts@).push(cur@) =~= before.update(before.len() - 1, before.last().push(c)));
        }
    }
    parts.push(cur);
    assert(v@.take(n as int) =~= v@);
    parts
}

/// The pieces joined with `sep` between consecutive ones (`[T]::join`).
pub open spec fn join_with(parts: Seq<Seq<char>>, sep: Seq<char>) -> Seq<char>
    decreases parts.len(),
{
    if parts.len() == 0 {
        Seq::empty()
    } else if parts.len() == 1 {
        parts[0]
    } else {
        join_with(parts.drop_last(), sep) + sep + parts.last()
    }
}

/// `parts.join(sep)`.
pub fn join_strings(parts: &Vec<String>, sep: &str) -> (r: String)
    ensures
        r@ == join_with(string_views(parts@), sep@),
{
    let mut r = String::new();
    let n = parts.len();
    for i in 0..n
        invariant
            n == parts@.len(),
            r@ == join_with(string_views(parts@).take(i as int), sep@),
    {
        let ghost taken = string_views(parts@).take(i + 1);
        assert(taken.drop_last() =~= string_views(parts@).take(i as int));
        if i > 0 {
            r.append(sep);
        } else {
            assert(string_views(parts@).take(0) =~= Seq::<Seq<char>>::empty());
        }
        r.append(parts[i].as_str());
    }
    assert(string_views(parts@).take(n as int) =~= string_views(parts@));
    r
}

/// Unicode `White_Space` characters (`char::is_whitespace`).
pub open spec fn is_whitespace(c: char) -> bool {
    ||| '\u{9}' <= c <= '\u{d}'
    ||| c == ' '
    ||| c == '\u{85}'
    ||| c == '\u{a0}'
    ||| c == '\u{1680}'
    ||| '\u{2000}' <= c <= '\u{200a}'
    ||| c == '\u{2028}'
    ||| c == '\u{2029}'
    ||| c == '\u{202f}'
    ||| c == '\u{205f}'
    ||| c == '\u{3000}'
}

pub fn char_is_whitespace(c: char) -> (r: bool)
    ensures
        r == is_whitespace(c),
{
    ('\u{9}' <= c && c <= '\u{d}') || c == ' ' || c == '\u{85}' || c == '\u{a0}' || c == '\u{1680}'
        || ('\u{2000}' <= c && c <= '\u{200a}') || c == '\u{2028}' || c == '\u{2029}' || c == '\u{202f}'
        || c == '\u{205f}' || c == '\u{3000}'
}

/// `s` without leading whitespace.
pub open spec fn trim_start(s: Seq<char>) -> Seq<char>
    decreases s.len(),
{
    if s.len() > 0 && is_whitespace(s[0]) {
        trim_start(s.drop_first())
    } else {
        s
    }
}

/// `s` without trailing whitespace.
pub open spec fn trim_end(s: Seq<char>) -> Seq<char>
    decreases s.len(),
{
    if s.len() > 0 && is_whitespace(s.last()) {
        trim_end(s.drop_last())
    } else {
        s
    }
}

/// `s` without leading or trailing whitespace (`str::trim`).
pub open spec fn trim(s: Seq<char>) -> Seq<char> {
    trim_end(trim_start(s))
}

proof fn lemma_trim_start_at(s: Seq<char>, i: int)
    requires
        0 <= i <= s.len(),
        forall|j: int| 0 <= j < i ==> is_whitespace(#[trigger] s[j]),
        i < s.len() ==> !is_whitespace(s[i]),
    ensures
        trim_start(s) == s.skip(i),
    decreases i,
{
    if i > 0 {
        let rest = s.drop_first();
        assert forall|j: int| 0 <= j < i - 1 implies is_whitespace(#[trigger] rest[j]) by {
            assert(rest[j] == s[j + 1]);
        }
        if i < s.len() {
            assert(rest[i - 1] == s[i]);
        }
        lemma_trim_start_at(rest, i - 1);
        assert(rest.skip(i - 1) =~= s.skip(i));
    } else {
        assert(s.skip(0) =~= s);
    }
}

proof fn lemma_trim_end_at(s: Seq<char>, k: int)
    requires
        0 <= k <= s.len(),
        forall|j: int| k <= j < s.len() ==> is_whitespace(#[trigger] s[j]),
        k > 0 ==> !is_whitespace(s[k - 1]),
    ensures
        trim_end(s) == s.take(k),
    decreases s.len() - k,
{
    if k < s.len() {
        let front = s.drop_last();
        assert forall|j: int| k <= j < front.len() implies is_whitespace(#[trigger] front[j]) by {
            assert(front[j] == s[j]);
        }
        if k > 0 {
            assert(front[k - 1] == s[k - 1]);
        }
        lemma_trim_end_at(front, k);
        assert(front.take(k) =~= s.take(k));
    } else {
        assert(s.take(k) =~= s);
    }
}

/// `s.trim()`.
pub fn trim_str(s: &str) -> (r: String)
    ensures
        r@ == trim(s@),
{
    let v = chars_of(s);
    let n = v.len();
    let mut i: usize = 0;
    while i < n && char_is_whitespace(v[i])
        invariant
            i <= n,
            n == v@.len(),
            forall|j: int| 0 <= j < i ==> is_whitespace(#[trigger] v@[j]),
        decreases n - i,
    {
        i = i + 1;
    }
    proof {
        lemma_trim_start_at(v@, i as int);
    }
    let ghost rest = v@.skip(i as int);
    let mut k: usize = n;
    while k > i && char_is_whitespace(v[k - 1])
        invariant
            i <= k <= n,
            n == v@.len(),
            rest == v@.skip(i as int),
            forall|j: int| k <= j < n ==> is_whitespace(#[trigger] v@[j]),
        decreases k,
    {
        k = k - 1;
    }
    proof {
        assert forall|j: int| k - i <= j < rest.len() implies is_whitespace(#[trigger] rest[j]) by {
            assert(rest[j] == v@[j + i]);
        }
        if k > i {
            assert(rest[k - i - 1] == v@[k - 1]);
        }
        lemma_trim_end_at(rest, k - i);
    }
    let mut r = String::new();
    for j in i..k
        invariant
            i <= k <= n,
            n == v@.len(),
            r@ == v@.subrange(i as int, j as int),
    {
        push_char(&mut r, v[j]);
        assert(v@.subrange(i as int, j + 1) =~= v@.subrange(i as int, j as int).push(v@[j as int]));
    }
    assert(v@.subrange(i as int, k as int) =~= rest.take(k - i));
    r
}

/// `c` with ASCII `a`-`z` mapped to `A`-`Z` (`char::to_ascii_uppercase`).
pub open spec fn upper_char(c: char) -> char {
    if 'a' <= c <= 'z' {
        ((c as int) - 32) as char
    } else {
        c
    }
}

/// `s` with ASCII letters upper-cased (`str::to_ascii_uppercase`).
pub open spec fn ascii_upper(s: Seq<char>) -> Seq<char> {
    s.map_values(|c: char| upper_char(c))
}

fn upper_char_exec(c: char) -> (r: char)
    ensures
        r == upper_char(c),
{
    if 'a' <= c && c <= 'z' {
        let code: u8 = (c as u8) - 32;
        code as char
    } else {
        c
    }
}

/// `s.to_ascii_uppercase()`.
pub fn to_ascii_upper(s: &str) -> (r: String)
    ensures
        r@ == ascii_upper(s@),
{
    let v = chars_of(s);
    let n = v.len();
    let mut r = String::new();
    for i in 0..n
        invariant
            n == v@.len(),
            v@ == s@,
            r@ == ascii_upper(v@.take(i as int)),
    {
        push_char(&mut r, upper_char_exec(v[i]));
        assert(ascii_upper(v@.take(i + 1)) =~= ascii_upper(v@.take(i as int)).push(upper_char(v@[i as int])));
    }
    assert(v@.take(n as int) =~= v@);
    r
}


/// The number of bytes `c` takes in UTF-8.
pub open spec fn utf8_len(c: char) -> int {
    if (c as u32) < 0x80 {
        1
    } else if (c as u32) < 0x800 {
        2
    } else if (c as u32) < 0x10000 {
        3
    } else {
        4
    }
}

/// The longest prefix of `s` whose UTF-8 encoding takes at most `budget`
/// bytes.
pub open spec fn fit_bytes(s: Seq<char>, budget: int) -> Seq<char>
    decreases s.len(),
{
    if s.len() == 0 || utf8_len(s[0]) > budget {
        Seq::empty()
    } else {
        seq![s[0]] + fit_bytes(s.drop_first(), budget - utf8_len(s[0]))
    }
}

proof fn lemma_fit_bytes_split(s: Seq<char>, i: int, budget: int)
    requires
        0 <= i < s.len(),
    ensures
        fit_bytes(s.skip(i), budget) == (if utf8_len(s[i]) > budget {
            Seq::<char>::empty()
        } else {
            seq![s[i]] + fit_bytes(s.skip(i + 1), budget - utf8_len(s[i]))
        }),
{
    assert(s.skip(i).drop_first() =~= s.skip(i + 1));
    assert(s.skip(i)[0] == s[i]);
}

/// A prefix of `s` cut at a character boundary to at most `cap` bytes.
pub fn take_utf8_bytes(s: &str, cap: usize) -> (r: String)
    ensures
        r@ == fit_bytes(s@, cap as int),
{
    let v = chars_of(s);
    let n = v.len();
    let mut r = String::new();
    let mut used: usize = 0;
    let mut i: usize = 0;
    assert(v@.skip(0) =~= v@);
    while i < n
        invariant
            i <= n,
            n == v@.len(),
            v@ == s@,
            used <= cap,
            r@ == v@.take(i as int),
            fit_bytes(v@, cap as int) == v@.take(i as int) + fit_bytes(v@.skip(i as int), cap - used),
        decreases n - i,
    {
        let c = v[i];
        let code = c as u32;
        let width: usize = if code < 0x80 {
            1
        } else if code < 0x800 {
            2
        } else if code < 0x10000 {
            3
        } else {
            4
        };
        proof {
            lemma_fit_bytes_split(v@, i as int, cap - used);
        }
        if width > cap - used {
            assert(v@.take(i as int) + Seq::<char>::empty() =~= v@.take(i as int));
            return r;
        }
        push_char(&mut r, c);
        used = used + width;
        assert(v@.take(i + 1) =~= v@.take(i as int).push(c));
        assert(v@.take(i as int) + (seq![c] + fit_bytes(v@.skip(i + 1), cap - used)) =~= v@.take(i + 1) + fit_bytes(
            v@.skip(i + 1),
            cap - used,
        ));
        i = i + 1;
    }
    assert(v@.skip(n as int) =~= Seq::<char>::empty());
    assert(v@.take(n as int) + Seq::<char>::empty() =~= v@.take(n as int));
    r
}

proof fn lemma_encode_utf8_cons(c: char, rest: Seq<char>)
    ensures
        vstd::utf8::encode_utf8(seq![c] + rest).len() == utf8_len(c) + vstd::utf8::encode_utf8(rest).len(),
{
    assert((seq![c] + rest).drop_first() =~= rest);
    assert((seq![c] + rest)[0] == c);
    vstd::utf8::char_is_scalar(c);
}

/// The bytes of a `fit_bytes` prefix are within the budget.
pub proof fn lemma_fit_bytes_within(s: Seq<char>, budget: int)
    requires
        budget >= 0,
    ensures
        vstd::utf8::encode_utf8(fit_bytes(s, budget)).len() <= budget,
    decreases s.len(),
{
    if s.len() > 0 && utf8_len(s[0]) <= budget {
        lemma_fit_bytes_within(s.drop_first(), budget - utf8_len(s[0]));
        lemma_encode_utf8_cons(s[0], fit_bytes(s.drop_first(), budget - utf8_len(s[0])));
    }
}


/// Text whose bytes fit the budget is kept whole.
pub proof fn lemma_fit_bytes_whole(s: Seq<char>, budget: int)
    requires
        vstd::utf8::encode_utf8(s).len() <= budget,
    ensures
        fit_bytes(s, budget) == s,
    decreases s.len(),
{
    if s.len() > 0 {
        assert(s =~= seq![s[0]] + s.drop_first());
        lemma_encode_utf8_cons(s[0], s.drop_first());
        lemma_fit_bytes_whole(s.drop_first(), budget - utf8_len(s[0]));
    }
}

} // verus!
