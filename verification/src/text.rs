use vstd::prelude::*;
use vstd::utf8::{decode_utf8, valid_utf8};

verus! {

/// What `char::is_alphanumeric` answers for `c`
/// (Unicode's Alphabetic or Numeric property).
pub uninterp spec fn is_alphanumeric_char(c: char) -> bool;

/// What `str::to_lowercase` returns for the text `s`.
pub uninterp spec fn lowercase_of(s: Seq<char>) -> Seq<char>;

/// Calls `char::is_alphanumeric`; the answer is named, not described.
#[verifier::external_body]
pub(crate) fn char_is_alphanumeric(c: char) -> (r: bool)
    ensures
        r == is_alphanumeric_char(c),
{
    c.is_alphanumeric()
}

/// Calls `str::to_lowercase`; the result is named, not described (it maps
/// whole words, not single characters, and may change the length).
#[verifier::external_body]
pub(crate) fn str_to_lowercase(s: &str) -> (r: String)
    ensures
        r@ == lowercase_of(s@),
{
    s.to_lowercase()
}

/// `c` is whitespace: it has Unicode's White_Space property, which is what
/// `char::is_whitespace` tests. These are the 25 code points U+0009 to
/// U+000D, U+0020, U+0085, U+00A0, U+1680, U+2000 to U+200A, U+2028,
/// U+2029, U+202F, U+205F and U+3000.
pub open spec fn is_whitespace_char(c: char) -> bool {
    let n = c as u32;
    ||| 0x9 <= n && n <= 0xd
    ||| n == 0x20
    ||| n == 0x85
    ||| n == 0xa0
    ||| n == 0x1680
    ||| 0x2000 <= n && n <= 0x200a
    ||| n == 0x2028
    ||| n == 0x2029
    ||| n == 0x202f
    ||| n == 0x205f
    ||| n == 0x3000
}

/// Whether `c` is whitespace (Unicode's White_Space property).
pub fn char_is_whitespace(c: char) -> (r: bool)
    ensures
        r == is_whitespace_char(c),
{
    let n = c as u32;
    (0x9 <= n && n <= 0xd) || n == 0x20 || n == 0x85 || n == 0xa0 || n == 0x1680 || (0x2000 <= n
        && n <= 0x200a) || n == 0x2028 || n == 0x2029 || n == 0x202f || n == 0x205f || n == 0x3000
}

/// Calls `std::str::from_utf8`: the bytes decoded as UTF-8 when they are
/// valid UTF-8, nothing otherwise.
#[verifier::external_body]
pub(crate) fn utf8_to_string(bytes: &[u8]) -> (r: Option<String>)
    ensures
        r is Some <==> valid_utf8(bytes@),
        r matches Some(s) ==> s@ == decode_utf8(bytes@),
{
    match std::str::from_utf8(bytes) {
        Ok(s) => Some(s.to_string()),
        Err(_) => None,
    }
}

/// Calls `String::push`, which appends one character.
#[verifier::external_body]
pub(crate) fn string_push(s: &mut String, c: char)
    ensures
        final(s)@ == old(s)@.push(c),
{
    s.push(c)
}

/// The decimal digit for `d` (`0` to `9`).
pub open spec fn digit_char(d: nat) -> char {
    ((('0' as u32) as nat) + d) as char
}

/// `n` written in decimal, without leading zeros.
pub open spec fn decimal(n: nat) -> Seq<char>
    decreases n,
{
    if n < 10 {
        seq![digit_char(n)]
    } else {
        decimal(n / 10).push(digit_char(n % 10))
    }
}

/// The number that the decimal digits `s` stand for (each character counts
/// as its distance from `0`).
pub open spec fn digits_value(s: Seq<char>) -> int
    decreases s.len(),
{
    if s.len() == 0 {
        0
    } else {
        digits_value(s.drop_last()) * 10 + ((s.last() as u32) as int - ('0' as u32) as int)
    }
}

/// Law: `decimal(n)` consists of the digits `0` to `9` only, has no leading
/// zero, and reads back as `n`.
pub proof fn lemma_decimal_reads_back(n: nat)
    ensures
        digits_value(decimal(n)) == n,
        decimal(n).len() > 0,
        forall|i: int| 0 <= i < decimal(n).len() ==> '0' <= #[trigger] decimal(n)[i] && decimal(n)[i] <= '9',
        n > 0 ==> decimal(n)[0] != '0',
    decreases n,
{
    if n >= 10 {
        lemma_decimal_reads_back(n / 10);
        let d = decimal(n);
        let c = digit_char(n % 10);
        assert(d.drop_last() =~= decimal(n / 10));
        assert((c as u32) as int == 48 + n % 10);
        assert(digits_value(d) == digits_value(decimal(n / 10)) * 10 + (n % 10) as int);
        assert((n / 10) * 10 + n % 10 == n) by (nonlinear_arith);
        assert forall|i: int| 0 <= i < d.len() implies '0' <= #[trigger] d[i] && d[i] <= '9' by {
            if i < d.len() - 1 {
                assert(d[i] == decimal(n / 10)[i]);
            }
        }
        assert(d[0] == decimal(n / 10)[0]);
    } else {
        let d = decimal(n);
        assert(d.drop_last() =~= Seq::<char>::empty());
        assert(digits_value(Seq::<char>::empty()) == 0);
        assert(d.last() == digit_char(n));
        assert((digit_char(n) as u32) as int == 48 + n);
        assert(digits_value(d) == n);
    }
}

/// Appends `n` written in decimal.
pub fn push_decimal(s: &mut String, n: u64)
    ensures
        final(s)@ == old(s)@ + decimal(n as nat),
    decreases n,
{
    if n >= 10 {
        push_decimal(s, n / 10);
    }
    let d = (n % 10) as u8;
    let c = (48u8 + d) as char;
    assert(c == digit_char((n % 10) as nat));
    string_push(s, c);
}

/// The characters of `s`, one by one.
pub fn chars_of(s: &str) -> (v: Vec<char>)
    ensures
        v@ == s@,
{
    let mut v: Vec<char> = Vec::new();
    for c in it: s.chars()
        invariant
            it.seq() == s@,
            v@ == s@.take(it.index() as int),
    {
        v.push(c);
        proof {
            assert(s@.take(it.index() + 1) =~= s@.take(it.index() as int).push(c));
        }
    }
    proof {
        assert(s@.take(s@.len() as int) =~= s@);
    }
    v
}

/// `prefix` is the beginning of `s`.
pub open spec fn has_prefix(s: Seq<char>, prefix: Seq<char>) -> bool {
    prefix.len() <= s.len() && s.take(prefix.len() as int) == prefix
}

/// Whether `s` begins with `prefix`.
pub fn starts_with(s: &str, prefix: &str) -> (r: bool)
    ensures
        r == has_prefix(s@, prefix@),
{
    let a = chars_of(s);
    let b = chars_of(prefix);
    if b.len() > a.len() {
        return false;
    }
    let mut i: usize = 0;
    while i < b.len()
        invariant
            b.len() <= a.len(),
            i <= b.len(),
            a@ == s@,
            b@ == prefix@,
            forall|j: int| 0 <= j < i ==> a@[j] == b@[j],
        decreases b.len() - i,
    {
        if a[i] != b[i] {
            assert(s@.take(prefix@.len() as int)[i as int] != prefix@[i as int]);
            return false;
        }
        i = i + 1;
    }
    assert(s@.take(prefix@.len() as int) =~= prefix@);
    true
}

/// `s` without its leading whitespace.
pub open spec fn trim_start_ws(s: Seq<char>) -> Seq<char>
    decreases s.len(),
{
    if s.len() > 0 && is_whitespace_char(s[0]) {
        trim_start_ws(s.drop_first())
    } else {
        s
    }
}

/// `s` without its trailing whitespace.
pub open spec fn trim_end_ws(s: Seq<char>) -> Seq<char>
    decreases s.len(),
{
    if s.len() > 0 && is_whitespace_char(s.last()) {
        trim_end_ws(s.drop_last())
    } else {
        s
    }
}

proof fn lemma_trim_start_ws_shape(s: Seq<char>) -> (k: int)
    ensures
        0 <= k <= s.len(),
        trim_start_ws(s) == s.skip(k),
        k < s.len() ==> !is_whitespace_char(s[k]),
    decreases s.len(),
{
    if s.len() > 0 && is_whitespace_char(s[0]) {
        let k1 = lemma_trim_start_ws_shape(s.drop_first());
        assert(s.drop_first().skip(k1) =~= s.skip(k1 + 1));
        k1 + 1
    } else {
        assert(s.skip(0) =~= s);
        0
    }
}

proof fn lemma_trim_end_ws_shape(s: Seq<char>) -> (k: int)
    ensures
        0 <= k <= s.len(),
        trim_end_ws(s) == s.take(k),
        k > 0 ==> !is_whitespace_char(s[k - 1]),
    decreases s.len(),
{
    if s.len() > 0 && is_whitespace_char(s.last()) {
        let k1 = lemma_trim_end_ws_shape(s.drop_last());
        assert(s.drop_last().take(k1) =~= s.take(k1));
        k1
    } else {
        assert(s.take(s.len() as int) =~= s);
        s.len() as int
    }
}

/// Law: trimmed text neither starts nor ends with whitespace.
pub proof fn lemma_trimmed_ends(s: Seq<char>)
    ensures
        trimmed(s).len() > 0 ==> !is_whitespace_char(trimmed(s)[0]),
        trimmed(s).len() > 0 ==> !is_whitespace_char(trimmed(s).last()),
{
    let a = lemma_trim_start_ws_shape(s);
    let front = trim_start_ws(s);
    let b = lemma_trim_end_ws_shape(front);
    if trimmed(s).len() > 0 {
        assert(trimmed(s)[0] == front[0]);
        assert(front[0] == s[a]);
        assert(trimmed(s).last() == front[b - 1]);
    }
}

/// `s` without leading and trailing whitespace (what `str::trim` gives).
pub open spec fn trimmed(s: Seq<char>) -> Seq<char> {
    trim_end_ws(trim_start_ws(s))
}

/// The characters `lo..hi` of `v` as a string.
pub fn string_of_range(v: &Vec<char>, lo: usize, hi: usize) -> (out: String)
    requires
        lo <= hi <= v@.len(),
    ensures
        out@ == v@.subrange(lo as int, hi as int),
{
    let mut out = String::new();
    let mut i = lo;
    while i < hi
        invariant
            lo <= i <= hi <= v@.len(),
            out@ == v@.subrange(lo as int, i as int),
        decreases hi - i,
    {
        string_push(&mut out, v[i]);
        proof {
            assert(v@.subrange(lo as int, i + 1) =~= v@.subrange(lo as int, i as int).push(v@[i as int]));
        }
        i = i + 1;
    }
    out
}

/// The bounds of the characters `lo..hi` of `v` once whitespace is trimmed
/// from both ends.
pub fn trim_bounds(v: &Vec<char>, lo: usize, hi: usize) -> (r: (usize, usize))
    requires
        lo <= hi <= v@.len(),
    ensures
        lo <= r.0 <= r.1 <= hi,
        v@.subrange(r.0 as int, r.1 as int) == trimmed(v@.subrange(lo as int, hi as int)),
{
    let mut a = lo;
    while a < hi && char_is_whitespace(v[a])
        invariant
            lo <= a <= hi <= v@.len(),
            trim_start_ws(v@.subrange(lo as int, hi as int)) == trim_start_ws(
                v@.subrange(a as int, hi as int),
            ),
        decreases hi - a,
    {
        proof {
            assert(v@.subrange(a as int, hi as int).drop_first() =~= v@.subrange(a + 1, hi as int));
        }
        a = a + 1;
    }
    let mut b = hi;
    while b > a && char_is_whitespace(v[b - 1])
        invariant
            a <= b <= hi <= v@.len(),
            trimmed(v@.subrange(lo as int, hi as int)) == trim_end_ws(v@.subrange(a as int, b as int)),
        decreases b - a,
    {
        proof {
            assert(v@.subrange(a as int, b as int).drop_last() =~= v@.subrange(a as int, b - 1));
        }
        b = b - 1;
    }
    (a, b)
}

/// `s` with leading and trailing whitespace removed.
pub fn trim(s: &str) -> (out: String)
    ensures
        out@ == trimmed(s@),
{
    let v = chars_of(s);
    let (a, b) = trim_bounds(&v, 0, v.len());
    proof {
        assert(v@.subrange(0, v@.len() as int) =~= s@);
    }
    string_of_range(&v, a, b)
}

/// The position of the first line break of `s`, or its length when it has none.
pub open spec fn newline_index(s: Seq<char>) -> nat
    decreases s.len(),
{
    if s.len() == 0 {
        0
    } else if s[0] == '\n' {
        0
    } else {
        1 + newline_index(s.drop_first())
    }
}

/// `newline_index` is the position of the first line break, or the length.
pub proof fn lemma_newline_index(s: Seq<char>)
    ensures
        newline_index(s) <= s.len(),
        forall|j: int| 0 <= j < newline_index(s) ==> s[j] != '\n',
        newline_index(s) < s.len() ==> s[newline_index(s) as int] == '\n',
    decreases s.len(),
{
    if s.len() > 0 && s[0] != '\n' {
        lemma_newline_index(s.drop_first());
        assert forall|j: int| 0 <= j < newline_index(s) implies s[j] != '\n' by {
            if j > 0 {
                assert(s[j] == s.drop_first()[j - 1]);
            }
        }
    }
}

pub proof fn lemma_newline_index_is(s: Seq<char>, m: int)
    requires
        0 <= m <= s.len(),
        forall|j: int| 0 <= j < m ==> s[j] != '\n',
        m < s.len() ==> s[m] == '\n',
    ensures
        newline_index(s) == m,
{
    lemma_newline_index(s);
    if newline_index(s) < m {
        assert(s[newline_index(s) as int] == '\n');
    }
    if newline_index(s) > m {
        assert(s[m] != '\n');
    }
}

/// The lines of `s` (split at each line break) with surrounding whitespace
/// trimmed, blank ones left out.
pub open spec fn nonblank_lines(s: Seq<char>) -> Seq<Seq<char>>
    decreases s.len(),
{
    let k = newline_index(s);
    let line = trimmed(s.take(k as int));
    let here = if line.len() > 0 {
        seq![line]
    } else {
        Seq::empty()
    };
    if k < s.len() {
        proof {
            lemma_newline_index(s);
        }
        here + nonblank_lines(s.skip(k as int + 1))
    } else {
        here
    }
}

/// The trimmed text of a single line, or nothing when it is blank.
pub open spec fn nonblank_line(line: Seq<char>) -> Seq<Seq<char>> {
    if trimmed(line).len() > 0 {
        seq![trimmed(line)]
    } else {
        Seq::empty()
    }
}

/// Law: text without a line break is one line: its trimmed text, or
/// nothing when it is blank.
pub proof fn lemma_nonblank_lines_one_line(line: Seq<char>)
    requires
        !line.contains('\n'),
    ensures
        nonblank_lines(line) == nonblank_line(line),
{
    assert forall|j: int| 0 <= j < line.len() implies line[j] != '\n' by {
        if line[j] == '\n' {
            assert(line.contains(line[j]));
        }
    }
    lemma_newline_index_is(line, line.len() as int);
    assert(line.take(line.len() as int) =~= line);
}

/// Law: the lines of two texts joined by a line break are the lines of the
/// first followed by the lines of the second.
pub proof fn lemma_nonblank_lines_split(a: Seq<char>, b: Seq<char>)
    ensures
        nonblank_lines(a + seq!['\n'] + b) == nonblank_lines(a) + nonblank_lines(b),
    decreases a.len(),
{
    let s = a + seq!['\n'] + b;
    lemma_newline_index(a);
    let k = newline_index(a) as int;
    assert forall|j: int| 0 <= j < k implies s[j] != '\n' by {
        assert(s[j] == a[j]);
    }
    if k == a.len() {
        lemma_newline_index_is(s, k);
        assert(s.take(k) =~= a);
        assert(s.skip(k + 1) =~= b);
        assert(a.take(k) =~= a);
        assert(nonblank_lines(s) =~= nonblank_lines(a) + nonblank_lines(b));
    } else {
        assert(s[k] == a[k]);
        lemma_newline_index_is(s, k);
        let rest = a.skip(k + 1);
        assert(s.take(k) =~= a.take(k));
        assert(s.skip(k + 1) =~= rest + seq!['\n'] + b);
        lemma_nonblank_lines_split(rest, b);
        assert(nonblank_lines(s) =~= nonblank_lines(a) + nonblank_lines(b));
    }
}

/// The views of a list of strings.
pub open spec fn texts(v: Seq<String>) -> Seq<Seq<char>> {
    v.map_values(|t: String| t@)
}

/// The lines of `text`, each trimmed, blank ones left out.
pub fn nonblank_lines_of(text: &str) -> (lines: Vec<String>)
    ensures
        texts(lines@) == nonblank_lines(text@),
{
    let v = chars_of(text);
    let n = v.len();
    let mut lines: Vec<String> = Vec::new();
    let mut start: usize = 0;
    let mut i: usize = 0;
    proof {
        assert(text@.skip(0) =~= text@);
        assert(texts(lines@) + nonblank_lines(text@) =~= nonblank_lines(text@));
    }
    while i < n
        invariant
            v@ == text@,
            n == v@.len(),
            start <= i <= n,
            forall|j: int| start <= j < i ==> v@[j] != '\n',
            nonblank_lines(text@) == texts(lines@) + nonblank_lines(text@.skip(start as int)),
        decreases n - i,
    {
        if v[i] == '\n' {
            let ghost rest = text@.skip(start as int);
            proof {
                lemma_newline_index_is(rest, i - start);
                assert(rest.take(i - start) =~= v@.subrange(start as int, i as int));
                assert(rest.skip(i - start + 1) =~= text@.skip(i + 1));
            }
            let (a, b) = trim_bounds(&v, start, i);
            let ghost before = lines@;
            if a < b {
                lines.push(string_of_range(&v, a, b));
                proof {
                    assert(texts(lines@) =~= texts(before).push(v@.subrange(a as int, b as int)));
                }
            }
            proof {
                assert(nonblank_lines(text@) =~= texts(lines@) + nonblank_lines(text@.skip(i + 1)));
            }
            start = i + 1;
        }
        i = i + 1;
    }
    let ghost rest = text@.skip(start as int);
    proof {
        lemma_newline_index_is(rest, n - start);
        assert(rest.take(n - start) =~= v@.subrange(start as int, n as int));
    }
    let (a, b) = trim_bounds(&v, start, n);
    let ghost before = lines@;
    if a < b {
        lines.push(string_of_range(&v, a, b));
        proof {
            assert(texts(lines@) =~= texts(before).push(v@.subrange(a as int, b as int)));
        }
    }
    proof {
        assert(nonblank_lines(text@) =~= texts(lines@));
    }
    lines
}

} // verus!
