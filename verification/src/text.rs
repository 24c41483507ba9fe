//! Small verified string helpers shared by the rest of the library.

use vstd::prelude::*;

verus! {

/// Appends one character to a string.
///
/// Trusted: calls `String::push`, which the standard library documents as
/// appending the given `char` to the end of the string.
#[verifier::external_body]
pub(crate) fn push_char(s: &mut String, c: char)
    ensures
        final(s)@ == old(s)@.push(c),
{
    s.push(c);
}

/// Character-wise equality of two string slices.
pub fn str_eq(a: &str, b: &str) -> (res: bool)
    ensures
        res == (a@ == b@),
{
    let n = a.unicode_len();
    let m = b.unicode_len();
    if n != m {
        return false;
    }
    let mut i: usize = 0;
    while i < n
        invariant
            n == a@.len(),
            m == b@.len(),
            n == m,
            i <= n,
            forall|j: int| 0 <= j < i ==> a@[j] == b@[j],
        decreases n - i,
    {
        if a.get_char(i) != b.get_char(i) {
            return false;
        }
        i = i + 1;
    }
    assert(a@ =~= b@);
    true
}

/// Copies a string slice into a new owned string.
pub fn to_owned_string(s: &str) -> (res: String)
    ensures
        res@ == s@,
{
    String::from_str(s)
}


/// The one-character string `*`, the wildcard of language profiles.
pub open spec fn wildcard() -> Seq<char> {
    seq!['*']
}

/// Whether a string is exactly `*`.
pub fn is_wildcard(s: &str) -> (res: bool)
    ensures
        res == (s@ == wildcard()),
{
    let n = s.unicode_len();
    if n != 1 {
        return false;
    }
    let c = s.get_char(0);
    if c == '*' {
        assert(s@ =~= wildcard());
        true
    } else {
        false
    }
}

/// The position of the first element of `v` equal to `s`.
pub open spec fn spec_position(v: Seq<String>, s: Seq<char>) -> Option<int>
    decreases v.len(),
{
    if v.len() == 0 {
        None
    } else if v[0]@ == s {
        Some(0)
    } else {
        match spec_position(v.drop_first(), s) {
            Some(i) => Some(i + 1),
            None => None,
        }
    }
}

/// Whether some element of `v` equals `s`.
pub open spec fn seq_has(v: Seq<String>, s: Seq<char>) -> bool {
    exists|i: int| 0 <= i < v.len() && #[trigger] v[i]@ == s
}

pub proof fn lemma_position_found(v: Seq<String>, s: Seq<char>)
    ensures
        spec_position(v, s) is Some <==> seq_has(v, s),
        spec_position(v, s) matches Some(i) ==> 0 <= i < v.len() && v[i]@ == s
            && forall|j: int| 0 <= j < i ==> v[j]@ != s,
    decreases v.len(),
{
    if v.len() > 0 {
        lemma_position_found(v.drop_first(), s);
        if v[0]@ != s {
            if seq_has(v, s) {
                let i = choose|i: int| 0 <= i < v.len() && #[trigger] v[i]@ == s;
                assert(v.drop_first()[i - 1]@ == s);
            }
            if seq_has(v.drop_first(), s) {
                let i = choose|i: int| 0 <= i < v.drop_first().len() && #[trigger] v.drop_first()[i]@ == s;
                assert(v[i + 1]@ == s);
            }
            match spec_position(v.drop_first(), s) {
                Some(i) => {
                    assert forall|j: int| 0 <= j < i + 1 implies v[j]@ != s by {
                        if j > 0 {
                            assert(v[j] == v.drop_first()[j - 1]);
                        }
                    }
                },
                None => {},
            }
        }
    }
}

/// The position of the first element of `v` equal to `s`, if any.
pub fn position_of(v: &Vec<String>, s: &str) -> (res: Option<usize>)
    ensures
        res matches Some(i) ==> spec_position(v@, s@) == Some(i as int),
        res is None ==> spec_position(v@, s@) is None,
{
    proof { lemma_position_found(v@, s@); }
    let mut i: usize = 0;
    while i < v.len()
        invariant
            i <= v@.len(),
            forall|j: int| 0 <= j < i ==> v@[j]@ != s@,
            spec_position(v@, s@) is Some <==> seq_has(v@, s@),
            spec_position(v@, s@) matches Some(k) ==> 0 <= k < v@.len() && v@[k]@ == s@
                && forall|j: int| 0 <= j < k ==> v@[j]@ != s@,
        decreases v.len() - i,
    {
        if str_eq(v[i].as_str(), s) {
            return Some(i);
        }
        i = i + 1;
    }
    None
}

/// Whether some element of `v` equals `s`.
pub fn contains_str(v: &Vec<String>, s: &str) -> (res: bool)
    ensures
        res == seq_has(v@, s@),
{
    proof { lemma_position_found(v@, s@); }
    position_of(v, s).is_some()
}


/// The views of a sequence of strings.
pub open spec fn views(v: Seq<String>) -> Seq<Seq<char>> {
    v.map_values(|s: String| s@)
}

/// A string is among `v` exactly when its view is among the views of `v`.
pub proof fn lemma_has_iff_views_contains(v: Seq<String>, s: Seq<char>)
    ensures
        seq_has(v, s) <==> views(v).contains(s),
{
    if seq_has(v, s) {
        let i = choose|i: int| 0 <= i < v.len() && #[trigger] v[i]@ == s;
        assert(views(v)[i] == s);
    }
    if views(v).contains(s) {
        let i = choose|i: int| 0 <= i < views(v).len() && views(v)[i] == s;
        assert(v[i]@ == s);
    }
}

/// The parts joined by `sep`.
pub open spec fn spec_join(parts: Seq<Seq<char>>, sep: Seq<char>) -> Seq<char>
    decreases parts.len(),
{
    if parts.len() == 0 {
        Seq::empty()
    } else if parts.len() == 1 {
        parts[0]
    } else {
        spec_join(parts.drop_last(), sep) + sep + parts.last()
    }
}

/// Joins `parts` with `sep` between consecutive parts.
pub fn join(parts: &Vec<String>, sep: &str) -> (res: String)
    ensures
        res@ == spec_join(views(parts@), sep@),
{
    let mut res = String::new();
    let mut i: usize = 0;
    while i < parts.len()
        invariant
            i <= parts@.len(),
            res@ == spec_join(views(parts@).take(i as int), sep@),
        decreases parts.len() - i,
    {
        if i > 0 {
            res.append(sep);
        }
        res.append(parts[i].as_str());
        proof {
            let vs = views(parts@);
            assert(vs.take(i + 1).drop_last() =~= vs.take(i as int));
            assert(vs.take(i + 1).last() == parts@[i as int]@);
            if i == 0 {
                assert(res@ =~= spec_join(vs.take(1), sep@));
            }
        }
        i = i + 1;
    }
    proof {
        assert(views(parts@).take(parts@.len() as int) =~= views(parts@));
    }
    res
}

/// `a` followed by `b`.
pub fn concat2(a: &str, b: &str) -> (res: String)
    ensures
        res@ == a@ + b@,
{
    let mut res = String::from_str(a);
    res.append(b);
    res
}

/// `a`, `b` and `c` one after the other.
pub fn concat3(a: &str, b: &str, c: &str) -> (res: String)
    ensures
        res@ == a@ + b@ + c@,
{
    let mut res = String::from_str(a);
    res.append(b);
    res.append(c);
    res
}

/// The decimal digits of `n`.
pub open spec fn spec_decimal(n: nat) -> Seq<char>
    decreases n,
{
    if n < 10 {
        seq![digit_char(n)]
    } else {
        spec_decimal(n / 10).push(digit_char(n % 10))
    }
}

pub open spec fn digit_char(d: nat) -> char {
    if d == 0 { '0' } else if d == 1 { '1' } else if d == 2 { '2' } else if d == 3 { '3' }
    else if d == 4 { '4' } else if d == 5 { '5' } else if d == 6 { '6' } else if d == 7 { '7' }
    else if d == 8 { '8' } else { '9' }
}

fn digit(d: u64) -> (c: char)
    requires
        d < 10,
    ensures
        c == digit_char(d as nat),
{
    if d == 0 { '0' } else if d == 1 { '1' } else if d == 2 { '2' } else if d == 3 { '3' }
    else if d == 4 { '4' } else if d == 5 { '5' } else if d == 6 { '6' } else if d == 7 { '7' }
    else if d == 8 { '8' } else { '9' }
}

/// `n` written in decimal, as `to_string` writes it.
pub fn decimal(n: u64) -> (res: String)
    ensures
        res@ == spec_decimal(n as nat),
    decreases n,
{
    if n < 10 {
        let mut s = String::new();
        push_char(&mut s, digit(n));
        assert(s@ =~= spec_decimal(n as nat));
        s
    } else {
        let mut s = decimal(n / 10);
        push_char(&mut s, digit(n % 10));
        s
    }
}


/// Whether `s` begins with `prefix`.
pub open spec fn spec_starts_with(s: Seq<char>, prefix: Seq<char>) -> bool {
    prefix.len() <= s.len() && s.subrange(0, prefix.len() as int) == prefix
}

/// Whether `s` begins with `prefix`.
pub fn starts_with(s: &str, prefix: &str) -> (res: bool)
    ensures
        res == spec_starts_with(s@, prefix@),
{
    let n = s.unicode_len();
    let m = prefix.unicode_len();
    if m > n {
        return false;
    }
    let mut i: usize = 0;
    while i < m
        invariant
            n == s@.len(),
            m == prefix@.len(),
            m <= n,
            i <= m,
            forall|j: int| 0 <= j < i ==> s@[j] == prefix@[j],
        decreases m - i,
    {
        if s.get_char(i) != prefix.get_char(i) {
            assert(s@.subrange(0, m as int)[i as int] != prefix@[i as int]);
            return false;
        }
        i = i + 1;
    }
    assert(s@.subrange(0, m as int) =~= prefix@);
    true
}

/// The text of `s` from character `from` on.
pub fn skip_chars(s: &str, from: usize) -> (res: String)
    requires
        from <= s@.len(),
    ensures
        res@ == s@.skip(from as int),
{
    let n = s.unicode_len();
    let t = s.substring_char(from, n);
    assert(t@ =~= s@.skip(from as int));
    String::from_str(t)
}

/// The standard library's lowercase mapping of a string.
pub uninterp spec fn lowercase(s: Seq<char>) -> Seq<char>;

/// Trusted: calls `str::to_lowercase`, whose result depends on the string
/// alone; what it is stays under the name `lowercase` (the documentation
/// defines it by the Unicode lowercase mapping, which is not restated here).
#[verifier::external_body]
pub(crate) fn to_lowercase(s: &str) -> (res: String)
    ensures
        res@ == lowercase(s@),
{
    s.to_lowercase()
}


/// The length in bytes of the UTF-8 encoding of a string.
pub open spec fn utf8_len(s: Seq<char>) -> nat {
    vstd::utf8::encode_utf8(s).len()
}

/// Whether `c` has the Unicode White_Space property.
pub open spec fn spec_is_whitespace(c: char) -> bool {
    ||| ('\u{9}' <= c && c <= '\u{d}')
    ||| c == ' '
    ||| c == '\u{85}'
    ||| c == '\u{a0}'
    ||| c == '\u{1680}'
    ||| ('\u{2000}' <= c && c <= '\u{200a}')
    ||| c == '\u{2028}'
    ||| c == '\u{2029}'
    ||| c == '\u{202f}'
    ||| c == '\u{205f}'
    ||| c == '\u{3000}'
}

/// Whether `c` is white space.
pub fn is_whitespace(c: char) -> (res: bool)
    ensures
        res == spec_is_whitespace(c),
{
    ('\u{9}' <= c && c <= '\u{d}') || c == ' ' || c == '\u{85}' || c == '\u{a0}' || c == '\u{1680}'
        || ('\u{2000}' <= c && c <= '\u{200a}') || c == '\u{2028}' || c == '\u{2029}' || c == '\u{202f}'
        || c == '\u{205f}' || c == '\u{3000}'
}

/// The string without its leading white space.
pub open spec fn trim_start_ws(s: Seq<char>) -> Seq<char>
    decreases s.len(),
{
    if s.len() > 0 && spec_is_whitespace(s[0]) {
        trim_start_ws(s.drop_first())
    } else {
        s
    }
}

/// The string without its trailing white space.
pub open spec fn trim_end_ws(s: Seq<char>) -> Seq<char>
    decreases s.len(),
{
    if s.len() > 0 && spec_is_whitespace(s.last()) {
        trim_end_ws(s.drop_last())
    } else {
        s
    }
}

/// The string without leading and trailing white space.
pub open spec fn spec_trim(s: Seq<char>) -> Seq<char> {
    trim_end_ws(trim_start_ws(s))
}

proof fn lemma_trim_start_at(s: Seq<char>, i: int)
    requires
        0 <= i <= s.len(),
        forall|j: int| 0 <= j < i ==> spec_is_whitespace(#[trigger] s[j]),
        i == s.len() || !spec_is_whitespace(s[i]),
    ensures
        trim_start_ws(s) == s.skip(i),
    decreases s.len(),
{
    if s.len() > 0 && spec_is_whitespace(s[0]) {
        assert(i > 0);
        assert forall|j: int| 0 <= j < i - 1 implies spec_is_whitespace(#[trigger] s.drop_first()[j]) by {
            assert(s.drop_first()[j] == s[j + 1]);
        }
        lemma_trim_start_at(s.drop_first(), i - 1);
        assert(s.drop_first().skip(i - 1) =~= s.skip(i));
    } else {
        if i > 0 {
            assert(spec_is_whitespace(s[0]));
        }
        assert(s.skip(0) =~= s);
    }
}

proof fn lemma_trim_end_at(s: Seq<char>, j: int)
    requires
        0 <= j <= s.len(),
        forall|k: int| j <= k < s.len() ==> spec_is_whitespace(#[trigger] s[k]),
        j == 0 || !spec_is_whitespace(s[j - 1]),
    ensures
        trim_end_ws(s) == s.take(j),
    decreases s.len(),
{
    if s.len() > 0 && spec_is_whitespace(s.last()) {
        assert(j < s.len()) by {
            if j == s.len() {
                assert(s[j - 1] == s.last());
            }
        }
        assert forall|k: int| j <= k < s.drop_last().len() implies spec_is_whitespace(#[trigger] s.drop_last()[k]) by {
            assert(s.drop_last()[k] == s[k]);
        }
        lemma_trim_end_at(s.drop_last(), j);
        assert(s.drop_last().take(j) =~= s.take(j));
    } else {
        if j < s.len() {
            assert(spec_is_whitespace(s[s.len() - 1]));
        }
        assert(s.take(s.len() as int) =~= s);
    }
}

/// The string without leading and trailing white space.
pub fn trim(s: &str) -> (res: String)
    ensures
        res@ == spec_trim(s@),
{
    let n = s.unicode_len();
    let mut a: usize = 0;
    while a < n && is_whitespace(s.get_char(a))
        invariant
            n == s@.len(),
            a <= n,
            forall|j: int| 0 <= j < a ==> spec_is_whitespace(#[trigger] s@[j]),
        decreases n - a,
    {
        a = a + 1;
    }
    proof { lemma_trim_start_at(s@, a as int); }
    let mut b: usize = n;
    while b > a && is_whitespace(s.get_char(b - 1))
        invariant
            n == s@.len(),
            a <= b <= n,
            forall|k: int| b <= k < n ==> spec_is_whitespace(#[trigger] s@[k]),
        decreases b,
    {
        b = b - 1;
    }
    proof {
        let t = s@.skip(a as int);
        assert forall|k: int| b - a <= k < t.len() implies spec_is_whitespace(#[trigger] t[k]) by {
            assert(t[k] == s@[k + a]);
        }
        if b > a {
            assert(t[b - a - 1] == s@[b - 1]);
        }
        lemma_trim_end_at(t, b - a);
        assert(t.take(b - a) =~= s@.subrange(a as int, b as int));
    }
    to_owned_string(s.substring_char(a, b))
}

} // verus!
