use vstd::prelude::*;
use crate::text::{char_is_alphanumeric, is_alphanumeric_char, lowercase_of, str_to_lowercase, string_push};

verus! {

/// The most characters a window label keeps (before lower-casing).
pub const LABEL_MAX_CHARS: usize = 32;

/// `c` is an ASCII character.
pub open spec fn ascii_char(c: char) -> bool {
    (c as u32) < 128
}

/// `c` is an ASCII letter or digit.
pub open spec fn ascii_alphanumeric(c: char) -> bool {
    ('a' <= c && c <= 'z') || ('A' <= c && c <= 'Z') || ('0' <= c && c <= '9')
}

/// `c` is a letter or digit in Unicode's sense: for ASCII the letters `A`-`Z`,
/// `a`-`z` and digits `0`-`9`; for any other character what
/// `char::is_alphanumeric` answers.
pub open spec fn alphanumeric(c: char) -> bool {
    if ascii_char(c) {
        ascii_alphanumeric(c)
    } else {
        is_alphanumeric_char(c)
    }
}

/// A character as it may stand in a window label: letters, digits and `-`
/// stay, everything else becomes `-`.
pub open spec fn label_char(c: char) -> char {
    if alphanumeric(c) || c == '-' {
        c
    } else {
        '-'
    }
}

/// `s` without its leading dashes.
pub open spec fn trim_start_dashes(s: Seq<char>) -> Seq<char>
    decreases s.len(),
{
    if s.len() > 0 && s[0] == '-' {
        trim_start_dashes(s.drop_first())
    } else {
        s
    }
}

/// `s` without its trailing dashes.
pub open spec fn trim_end_dashes(s: Seq<char>) -> Seq<char>
    decreases s.len(),
{
    if s.len() > 0 && s.last() == '-' {
        trim_end_dashes(s.drop_last())
    } else {
        s
    }
}

/// The first `n` characters of `s`, or all of `s` when it is shorter.
pub open spec fn first_chars(s: Seq<char>, n: nat) -> Seq<char> {
    if s.len() <= n {
        s
    } else {
        s.take(n as int)
    }
}

/// The label before lower-casing: every character mapped by `label_char`,
/// dashes trimmed from both ends, at most `LABEL_MAX_CHARS` characters kept.
pub open spec fn label_stem(url: Seq<char>) -> Seq<char> {
    first_chars(
        trim_end_dashes(trim_start_dashes(url.map_values(|c: char| label_char(c)))),
        LABEL_MAX_CHARS as nat,
    )
}

/// Every character of `s` is ASCII.
pub open spec fn all_ascii(s: Seq<char>) -> bool {
    forall|i: int| 0 <= i < s.len() ==> ascii_char(#[trigger] s[i])
}

/// `c` with an ASCII capital turned into its small letter.
pub open spec fn ascii_lower_char(c: char) -> char {
    if 'A' <= c && c <= 'Z' {
        ((c as u32) + 32) as char
    } else {
        c
    }
}

/// `c` with an ASCII small letter turned into its capital.
pub open spec fn ascii_upper_char(c: char) -> char {
    if 'a' <= c && c <= 'z' {
        ((c as u32) - 32) as char
    } else {
        c
    }
}

/// `s` in lower case, as `str::to_lowercase` gives it: for ASCII text each
/// capital becomes its small letter; any other text is lower-cased by std.
pub open spec fn lowered(s: Seq<char>) -> Seq<char> {
    if all_ascii(s) {
        s.map_values(|c: char| ascii_lower_char(c))
    } else {
        lowercase_of(s)
    }
}

/// The window label for a pinned address: `label_stem`, lower-cased.
pub open spec fn window_label(url: Seq<char>) -> Seq<char> {
    lowered(label_stem(url))
}

proof fn lemma_trim_start_skip(s: Seq<char>, k: int)
    requires
        0 <= k < s.len(),
        s[k] == '-',
    ensures
        trim_start_dashes(s.skip(k)) == trim_start_dashes(s.skip(k + 1)),
{
    assert(s.skip(k).drop_first() =~= s.skip(k + 1));
}

proof fn lemma_trim_end_sub(s: Seq<char>, a: int, b: int)
    requires
        0 <= a < b <= s.len(),
        s[b - 1] == '-',
    ensures
        trim_end_dashes(s.subrange(a, b)) == trim_end_dashes(s.subrange(a, b - 1)),
{
    assert(s.subrange(a, b).drop_last() =~= s.subrange(a, b - 1));
}

proof fn lemma_trim_start_shape(s: Seq<char>) -> (k: int)
    ensures
        0 <= k <= s.len(),
        trim_start_dashes(s) == s.skip(k),
        k < s.len() ==> s[k] != '-',
        forall|j: int| 0 <= j < k ==> s[j] == '-',
    decreases s.len(),
{
    if s.len() > 0 && s[0] == '-' {
        let k1 = lemma_trim_start_shape(s.drop_first());
        assert(s.drop_first().skip(k1) =~= s.skip(k1 + 1));
        assert forall|j: int| 0 <= j < k1 + 1 implies s[j] == '-' by {
            if j > 0 {
                assert(s[j] == s.drop_first()[j - 1]);
            }
        }
        k1 + 1
    } else {
        assert(s.skip(0) =~= s);
        0
    }
}

proof fn lemma_trim_end_shape(s: Seq<char>) -> (k: int)
    ensures
        0 <= k <= s.len(),
        trim_end_dashes(s) == s.take(k),
        k > 0 ==> s[k - 1] != '-',
        forall|j: int| k <= j < s.len() ==> s[j] == '-',
    decreases s.len(),
{
    if s.len() > 0 && s.last() == '-' {
        let k1 = lemma_trim_end_shape(s.drop_last());
        assert(s.drop_last().take(k1) =~= s.take(k1));
        assert forall|j: int| k1 <= j < s.len() implies s[j] == '-' by {
            if j < s.len() - 1 {
                assert(s[j] == s.drop_last()[j]);
            }
        }
        k1
    } else {
        assert(s.take(s.len() as int) =~= s);
        s.len() as int
    }
}

/// Law: before lower-casing, a window label has at most `LABEL_MAX_CHARS`
/// characters, holds only letters, digits and dashes, never starts with a
/// dash, and ends with one only where it was cut to length.
pub proof fn lemma_label_stem_shape(url: Seq<char>)
    ensures
        label_stem(url).len() <= LABEL_MAX_CHARS,
        forall|i: int|
            0 <= i < label_stem(url).len() ==> alphanumeric(#[trigger] label_stem(url)[i])
                || label_stem(url)[i] == '-',
        label_stem(url).len() > 0 ==> label_stem(url)[0] != '-',
        0 < label_stem(url).len() < LABEL_MAX_CHARS ==> label_stem(url).last() != '-',
{
    let mapped = url.map_values(|c: char| label_char(c));
    let a = lemma_trim_start_shape(mapped);
    let front = trim_start_dashes(mapped);
    let b = lemma_trim_end_shape(front);
    let stem = label_stem(url);
    assert forall|i: int| 0 <= i < stem.len() implies alphanumeric(#[trigger] stem[i]) || stem[i]
        == '-' by {
        assert(stem[i] == mapped[a + i]);
    }
    if stem.len() > 0 {
        assert(stem[0] == front[0]);
    }
    if 0 < stem.len() < LABEL_MAX_CHARS {
        assert(stem.last() == front[b - 1]);
    }
}

/// Law: the label (before lower-casing) is the leading part of the mapped
/// address: it starts at the first character that is not a dash, takes
/// the following characters in order, and stops after `LABEL_MAX_CHARS` of
/// them or where only dashes remain; it ends with a dash only where it was
/// cut to length. The returned `a` is where it starts.
pub proof fn lemma_label_is_leading_part(url: Seq<char>) -> (a: int)
    ensures
        0 <= a <= url.len(),
        forall|j: int| 0 <= j < a ==> #[trigger] label_char(url[j]) == '-',
        a < url.len() ==> label_char(url[a]) != '-',
        a + label_stem(url).len() <= url.len(),
        forall|i: int|
            0 <= i < label_stem(url).len() ==> #[trigger] label_stem(url)[i] == label_char(url[a + i]),
        label_stem(url).len() <= LABEL_MAX_CHARS,
        label_stem(url).len() < LABEL_MAX_CHARS ==> forall|j: int|
            a + label_stem(url).len() <= j < url.len() ==> #[trigger] label_char(url[j]) == '-',
        0 < label_stem(url).len() < LABEL_MAX_CHARS ==> label_stem(url).last() != '-',
{
    let mapped = url.map_values(|c: char| label_char(c));
    let a = lemma_trim_start_shape(mapped);
    let front = trim_start_dashes(mapped);
    let b = lemma_trim_end_shape(front);
    let stem = label_stem(url);
    assert forall|j: int| 0 <= j < a implies #[trigger] label_char(url[j]) == '-' by {
        assert(mapped[j] == label_char(url[j]));
    }
    if a < url.len() {
        assert(mapped[a] == label_char(url[a]));
    }
    assert forall|i: int| 0 <= i < stem.len() implies #[trigger] stem[i] == label_char(url[a + i]) by {
        assert(stem[i] == mapped[a + i]);
    }
    if stem.len() < LABEL_MAX_CHARS {
        assert(stem.len() == b);
        assert forall|j: int| a + stem.len() <= j < url.len() implies #[trigger] label_char(url[j]) == '-' by {
            assert(front[j - a] == mapped[j]);
        }
        if stem.len() > 0 {
            assert(stem.last() == front[b - 1]);
        }
    }
    a
}

proof fn lemma_stem_source(url: Seq<char>) -> (a: int)
    ensures
        0 <= a,
        a + label_stem(url).len() <= url.len(),
        forall|i: int|
            0 <= i < label_stem(url).len() ==> #[trigger] label_stem(url)[i] == label_char(url[a + i]),
{
    let mapped = url.map_values(|c: char| label_char(c));
    let a = lemma_trim_start_shape(mapped);
    let front = trim_start_dashes(mapped);
    let b = lemma_trim_end_shape(front);
    let stem = label_stem(url);
    assert forall|i: int| 0 <= i < stem.len() implies #[trigger] stem[i] == label_char(url[a + i]) by {
        assert(stem[i] == mapped[a + i]);
    }
    a
}

/// A character that may stand in the label of an ASCII address: a small
/// letter, a digit or `-`.
pub open spec fn ascii_label_char(c: char) -> bool {
    ('a' <= c && c <= 'z') || ('0' <= c && c <= '9') || c == '-'
}

/// Law: the label of an ASCII address has at most `LABEL_MAX_CHARS`
/// characters, all of them small letters, digits or `-`, and does not
/// start with `-`.
pub proof fn lemma_ascii_label_shape(url: Seq<char>)
    requires
        all_ascii(url),
    ensures
        window_label(url).len() <= LABEL_MAX_CHARS,
        forall|i: int| 0 <= i < window_label(url).len() ==> ascii_label_char(#[trigger] window_label(url)[i]),
        window_label(url).len() > 0 ==> window_label(url)[0] != '-',
{
    lemma_label_stem_shape(url);
    let a = lemma_stem_source(url);
    let stem = label_stem(url);
    assert forall|i: int| 0 <= i < stem.len() implies ascii_char(#[trigger] stem[i]) by {
        assert(stem[i] == label_char(url[a + i]));
        assert(ascii_char(url[a + i]));
    }
    let l = window_label(url);
    assert(l == stem.map_values(|c: char| ascii_lower_char(c)));
    assert forall|i: int| 0 <= i < l.len() implies ascii_label_char(#[trigger] l[i]) by {
        assert(l[i] == ascii_lower_char(stem[i]));
        assert(ascii_char(stem[i]));
        assert(alphanumeric(stem[i]) || stem[i] == '-');
    }
    if l.len() > 0 {
        assert(l[0] == ascii_lower_char(stem[0]));
    }
}

/// Law: the label of an ASCII address is its own label, unless it ends
/// with `-` (which happens only where it was cut to length).
pub proof fn lemma_ascii_label_idempotent(url: Seq<char>)
    requires
        all_ascii(url),
        window_label(url).len() == 0 || window_label(url).last() != '-',
    ensures
        window_label(window_label(url)) == window_label(url),
{
    lemma_ascii_label_shape(url);
    let s = window_label(url);
    let mapped = s.map_values(|c: char| label_char(c));
    assert forall|i: int| 0 <= i < s.len() implies #[trigger] mapped[i] == s[i] by {
        assert(ascii_label_char(s[i]));
    }
    assert(mapped =~= s);
    assert(trim_start_dashes(s) == s);
    assert(trim_end_dashes(s) == s);
    assert(first_chars(s, LABEL_MAX_CHARS as nat) == s);
    assert(label_stem(s) == s);
    assert forall|i: int| 0 <= i < s.len() implies ascii_char(#[trigger] s[i]) by {
        assert(ascii_label_char(s[i]));
    }
    let low = s.map_values(|c: char| ascii_lower_char(c));
    assert forall|i: int| 0 <= i < s.len() implies #[trigger] low[i] == s[i] by {
        assert(ascii_label_char(s[i]));
    }
    assert(low =~= s);
}

proof fn lemma_trim_start_map(s: Seq<char>, f: spec_fn(char) -> char)
    requires
        forall|c: char| (#[trigger] f(c) == '-') == (c == '-'),
    ensures
        trim_start_dashes(s.map_values(f)) == trim_start_dashes(s).map_values(f),
    decreases s.len(),
{
    let m = s.map_values(f);
    if s.len() > 0 {
        assert(m[0] == f(s[0]));
        assert(m.drop_first() =~= s.drop_first().map_values(f));
        lemma_trim_start_map(s.drop_first(), f);
    } else {
        assert(m =~= s.map_values(f));
    }
}

proof fn lemma_trim_end_map(s: Seq<char>, f: spec_fn(char) -> char)
    requires
        forall|c: char| (#[trigger] f(c) == '-') == (c == '-'),
    ensures
        trim_end_dashes(s.map_values(f)) == trim_end_dashes(s).map_values(f),
    decreases s.len(),
{
    let m = s.map_values(f);
    if s.len() > 0 {
        assert(m.last() == f(s.last()));
        assert(m.drop_last() =~= s.drop_last().map_values(f));
        lemma_trim_end_map(s.drop_last(), f);
    }
}

proof fn lemma_label_case_map(url: Seq<char>, f: spec_fn(char) -> char)
    requires
        all_ascii(url),
        forall|c: char| (#[trigger] f(c) == '-') == (c == '-'),
        forall|c: char| ascii_char(c) ==> ascii_char(#[trigger] f(c)),
        forall|c: char| ascii_char(c) ==> ascii_alphanumeric(#[trigger] f(c)) == ascii_alphanumeric(c),
        forall|c: char| ascii_char(c) ==> ascii_lower_char(#[trigger] f(c)) == ascii_lower_char(c),
    ensures
        window_label(url.map_values(f)) == window_label(url),
{
    let g = |c: char| label_char(c);
    let u2 = url.map_values(f);
    let m1 = url.map_values(g);
    let m2 = u2.map_values(g);
    assert forall|i: int| 0 <= i < m2.len() implies #[trigger] m2[i] == m1.map_values(f)[i] by {
        let c = url[i];
        assert(ascii_char(c));
        assert(u2[i] == f(c));
        assert(ascii_char(f(c)));
        if !(ascii_alphanumeric(c) || c == '-') {
            assert(f('-') == '-');
        }
    }
    assert(m2 =~= m1.map_values(f));
    lemma_trim_start_map(m1, f);
    lemma_trim_end_map(trim_start_dashes(m1), f);
    let t = trim_end_dashes(trim_start_dashes(m1));
    let stem1 = label_stem(url);
    let stem2 = label_stem(u2);
    assert(stem2 =~= stem1.map_values(f));
    let a = lemma_stem_source(url);
    assert forall|i: int| 0 <= i < stem1.len() implies ascii_char(#[trigger] stem1[i]) by {
        assert(stem1[i] == label_char(url[a + i]));
        assert(ascii_char(url[a + i]));
    }
    assert forall|i: int| 0 <= i < stem2.len() implies ascii_char(#[trigger] stem2[i]) by {
        assert(stem2[i] == f(stem1[i]));
        assert(ascii_char(stem1[i]));
    }
    let l1 = stem1.map_values(|c: char| ascii_lower_char(c));
    let l2 = stem2.map_values(|c: char| ascii_lower_char(c));
    assert forall|i: int| 0 <= i < l2.len() implies #[trigger] l2[i] == l1[i] by {
        assert(stem2[i] == f(stem1[i]));
        assert(ascii_char(stem1[i]));
    }
    assert(l2 =~= l1);
}

/// Law: the case of ASCII letters in an ASCII address does not change its
/// label: the address in capitals or in small letters gets the same one.
pub proof fn lemma_ascii_label_ignores_case(url: Seq<char>)
    requires
        all_ascii(url),
    ensures
        window_label(url.map_values(|c: char| ascii_upper_char(c))) == window_label(url),
        window_label(url.map_values(|c: char| ascii_lower_char(c))) == window_label(url),
{
    lemma_label_case_map(url, |c: char| ascii_upper_char(c));
    lemma_label_case_map(url, |c: char| ascii_lower_char(c));
}

fn is_alphanumeric(c: char) -> (r: bool)
    ensures
        r == alphanumeric(c),
{
    if (c as u32) < 128 {
        ('a' <= c && c <= 'z') || ('A' <= c && c <= 'Z') || ('0' <= c && c <= '9')
    } else {
        char_is_alphanumeric(c)
    }
}

/// The name of the window that shows a pinned address: the address with
/// every character other than a letter, digit or `-` replaced by `-`,
/// leading and trailing dashes removed, cut to 32 characters, lower-cased.
pub fn sanitize_label(url: &str) -> (label: String)
    ensures
        label@ == window_label(url@),
{
    let ghost mapped_spec = url@.map_values(|c: char| label_char(c));
    let mut mapped: Vec<char> = Vec::new();
    for c in it: url.chars()
        invariant
            it.seq() == url@,
            mapped@ == url@.take(it.index() as int).map_values(|c: char| label_char(c)),
    {
        let keep = is_alphanumeric(c) || c == '-';
        mapped.push(if keep { c } else { '-' });
        proof {
            assert(url@.take(it.index() + 1) =~= url@.take(it.index() as int).push(c));
        }
    }
    proof {
        assert(url@.take(url@.len() as int) =~= url@);
        assert(mapped@ =~= mapped_spec);
    }
    let n = mapped.len();
    let mut start: usize = 0;
    proof {
        assert(mapped@ =~= mapped@.skip(0));
    }
    while start < n && mapped[start] == '-'
        invariant
            start <= n == mapped@.len(),
            trim_start_dashes(mapped@) == trim_start_dashes(mapped@.skip(start as int)),
        decreases n - start,
    {
        proof {
            lemma_trim_start_skip(mapped@, start as int);
        }
        start = start + 1;
    }
    proof {
        assert(trim_start_dashes(mapped@) == mapped@.skip(start as int));
        assert(mapped@.skip(start as int) =~= mapped@.subrange(start as int, n as int));
    }
    let mut end: usize = n;
    while end > start && mapped[end - 1] == '-'
        invariant
            start <= end <= n == mapped@.len(),
            trim_end_dashes(trim_start_dashes(mapped@)) == trim_end_dashes(
                mapped@.subrange(start as int, end as int),
            ),
        decreases end - start,
    {
        proof {
            lemma_trim_end_sub(mapped@, start as int, end as int);
        }
        end = end - 1;
    }
    let stop = if end - start > LABEL_MAX_CHARS {
        start + LABEL_MAX_CHARS
    } else {
        end
    };
    let ghost trimmed = mapped@.subrange(start as int, end as int);
    let ghost stem_spec = mapped@.subrange(start as int, stop as int);
    proof {
        assert(trim_end_dashes(trimmed) == trimmed);
        assert(label_stem(url@) =~= stem_spec);
    }
    let mut stem = String::new();
    let mut ascii = true;
    let mut i: usize = start;
    while i < stop
        invariant
            start <= i <= stop <= n == mapped@.len(),
            stem_spec == mapped@.subrange(start as int, stop as int),
            stem@ == mapped@.subrange(start as int, i as int),
            ascii == all_ascii(stem@),
        decreases stop - i,
    {
        let c = mapped[i];
        let ghost before = stem@;
        string_push(&mut stem, c);
        ascii = ascii && (c as u32) < 128;
        proof {
            assert(mapped@.subrange(start as int, i + 1) =~= mapped@.subrange(start as int, i as int).push(mapped@[i as int]));
            if all_ascii(before) && ascii_char(c) {
                assert forall|j: int| 0 <= j < stem@.len() implies ascii_char(#[trigger] stem@[j]) by {
                    if j < before.len() {
                        assert(stem@[j] == before[j]);
                    }
                }
            } else if !ascii_char(c) {
                assert(stem@[before.len() as int] == c);
            } else {
                let j = choose|j: int| 0 <= j < before.len() && !ascii_char(#[trigger] before[j]);
                assert(stem@[j] == before[j]);
            }
        }
        i = i + 1;
    }
    if ascii {
        let mut out = String::new();
        let mut k: usize = start;
        while k < stop
            invariant
                start <= k <= stop <= n == mapped@.len(),
                stem_spec == mapped@.subrange(start as int, stop as int),
                out@ == mapped@.subrange(start as int, k as int).map_values(|c: char| ascii_lower_char(c)),
            decreases stop - k,
        {
            let c = mapped[k];
            let low = if 'A' <= c && c <= 'Z' {
                ((c as u32) + 32) as u8 as char
            } else {
                c
            };
            proof {
                if 'A' <= c && c <= 'Z' {
                    assert(low == ascii_lower_char(c));
                }
            }
            string_push(&mut out, low);
            proof {
                assert(mapped@.subrange(start as int, k + 1).map_values(|c: char| ascii_lower_char(c))
                    =~= mapped@.subrange(start as int, k as int).map_values(|c: char| ascii_lower_char(c)).push(low));
            }
            k = k + 1;
        }
        out
    } else {
        str_to_lowercase(stem.as_str())
    }
}

} // verus!
