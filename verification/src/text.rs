//! Text as sequences of characters: conversions between `str` and
//! `Vec<char>`, searching, trimming and decimal numerals.
//!
//! Every contract in this crate speaks of text through its view, a
//! `Seq<char>`; the functions here are the executable counterparts of the
//! spec functions that those contracts are built from.
use vstd::prelude::*;

verus! {

/// `String::push` of the standard library: the character is appended at the
/// end of the string and nothing else changes.
pub assume_specification[ String::push ](s: &mut String, ch: char)
    ensures
        final(s)@ == old(s)@.push(ch),
;

/// Unicode's `White_Space` property.
pub open spec fn is_whitespace(c: char) -> bool {
    let n = c as u32;
    ||| 0x09 <= n <= 0x0D
    ||| n == 0x20
    ||| n == 0x85
    ||| n == 0xA0
    ||| n == 0x1680
    ||| 0x2000 <= n <= 0x200A
    ||| n == 0x2028
    ||| n == 0x2029
    ||| n == 0x202F
    ||| n == 0x205F
    ||| n == 0x3000
}

/// `pat` stands in `s` at index `i`.
pub open spec fn occurs_at(s: Seq<char>, pat: Seq<char>, i: int) -> bool {
    &&& 0 <= i
    &&& i + pat.len() <= s.len()
    &&& s.subrange(i, i + pat.len()) == pat
}

/// `pat` stands in `s` at index `i` and nowhere before.
pub open spec fn is_first_occurrence(s: Seq<char>, pat: Seq<char>, i: int) -> bool {
    &&& occurs_at(s, pat, i)
    &&& forall|j: int| 0 <= j < i ==> !occurs_at(s, pat, j)
}

/// The index of the first occurrence of `pat` in `s`, if there is one.
pub open spec fn find(s: Seq<char>, pat: Seq<char>) -> Option<int> {
    if exists|i: int| occurs_at(s, pat, i) {
        Some(choose|i: int| is_first_occurrence(s, pat, i))
    } else {
        None
    }
}

/// `s[i]` is `c`, and no character before it is.
pub open spec fn is_first_index(s: Seq<char>, c: char, i: int) -> bool {
    &&& 0 <= i < s.len()
    &&& s[i] == c
    &&& forall|j: int| 0 <= j < i ==> s[j] != c
}

/// The index of the first `c` in `s`, if there is one.
pub open spec fn first_index(s: Seq<char>, c: char) -> Option<int> {
    if exists|i: int| is_first_index(s, c, i) {
        Some(choose|i: int| is_first_index(s, c, i))
    } else {
        None
    }
}

/// `s[i]` is `c`, and no character after it is.
pub open spec fn is_last_index(s: Seq<char>, c: char, i: int) -> bool {
    &&& 0 <= i < s.len()
    &&& s[i] == c
    &&& forall|j: int| i < j < s.len() ==> s[j] != c
}

/// The index of the last `c` in `s`, if there is one.
pub open spec fn last_index(s: Seq<char>, c: char) -> Option<int> {
    if exists|i: int| is_last_index(s, c, i) {
        Some(choose|i: int| is_last_index(s, c, i))
    } else {
        None
    }
}

/// `s` without its leading whitespace.
pub open spec fn trim_start(s: Seq<char>) -> Seq<char>
    decreases s.len(),
{
    if s.len() > 0 && is_whitespace(s.first()) {
        trim_start(s.drop_first())
    } else {
        s
    }
}

/// `s` without its trailing whitespace.
pub open spec fn trim_end(s: Seq<char>) -> Seq<char>
    decreases s.len(),
{
    if s.len() > 0 && is_whitespace(s.last()) {
        trim_end(s.drop_last())
    } else {
        s
    }
}

/// `s` without leading and trailing whitespace.
pub open spec fn trim(s: Seq<char>) -> Seq<char> {
    trim_end(trim_start(s))
}

/// `s` after `pat` has been taken off its front as often as it stands there.
pub open spec fn strip_prefixes(s: Seq<char>, pat: Seq<char>) -> Seq<char>
    decreases s.len(),
{
    if pat.len() > 0 && occurs_at(s, pat, 0) {
        strip_prefixes(s.skip(pat.len() as int), pat)
    } else {
        s
    }
}

/// `s` after `pat` has been taken off its end as often as it stands there.
pub open spec fn strip_suffixes(s: Seq<char>, pat: Seq<char>) -> Seq<char>
    decreases s.len(),
{
    if pat.len() > 0 && occurs_at(s, pat, s.len() - pat.len()) {
        strip_suffixes(s.take(s.len() - pat.len()), pat)
    } else {
        s
    }
}

/// The first occurrence is unique, so `find` returns it.
pub proof fn lemma_find_first(s: Seq<char>, pat: Seq<char>, i: int)
    requires
        is_first_occurrence(s, pat, i),
    ensures
        find(s, pat) == Some(i),
{
    let j = choose|j: int| is_first_occurrence(s, pat, j);
    assert(occurs_at(s, pat, i));
    assert(is_first_occurrence(s, pat, j));
    if j < i {
        assert(!occurs_at(s, pat, j));
    }
    if i < j {
        assert(!occurs_at(s, pat, i));
    }
}

/// The first index is unique, so `first_index` returns it.
pub proof fn lemma_first_index(s: Seq<char>, c: char, i: int)
    requires
        is_first_index(s, c, i),
    ensures
        first_index(s, c) == Some(i),
{
    let j = choose|j: int| is_first_index(s, c, j);
    assert(is_first_index(s, c, j));
    if j < i {
        assert(s[j] != c);
    }
    if i < j {
        assert(s[i] != c);
    }
}

/// The last index is unique, so `last_index` returns it.
pub proof fn lemma_last_index(s: Seq<char>, c: char, i: int)
    requires
        is_last_index(s, c, i),
    ensures
        last_index(s, c) == Some(i),
{
    let j = choose|j: int| is_last_index(s, c, j);
    assert(is_last_index(s, c, j));
    if j < i {
        assert(s[i] != c);
    }
    if i < j {
        assert(s[j] != c);
    }
}

/// Leading whitespace of length `a` is exactly what `trim_start` removes.
pub proof fn lemma_trim_start(s: Seq<char>, a: int)
    requires
        0 <= a <= s.len(),
        forall|j: int| 0 <= j < a ==> is_whitespace(s[j]),
        a == s.len() || !is_whitespace(s[a]),
    ensures
        trim_start(s) == s.skip(a),
    decreases a,
{
    if a == 0 {
        assert(s.skip(0) =~= s);
    } else {
        assert(is_whitespace(s[0]));
        let t = s.drop_first();
        assert forall|j: int| 0 <= j < a - 1 implies is_whitespace(t[j]) by {
            assert(t[j] == s[j + 1]);
        }
        lemma_trim_start(t, a - 1);
        assert(t.skip(a - 1) =~= s.skip(a));
    }
}

/// Trailing whitespace from index `b` on is exactly what `trim_end` removes.
pub proof fn lemma_trim_end(s: Seq<char>, b: int)
    requires
        0 <= b <= s.len(),
        forall|j: int| b <= j < s.len() ==> is_whitespace(s[j]),
        b == 0 || !is_whitespace(s[b - 1]),
    ensures
        trim_end(s) == s.take(b),
    decreases s.len() - b,
{
    if b == s.len() {
        assert(s.take(b) =~= s);
    } else {
        assert(is_whitespace(s[s.len() - 1]));
        let t = s.drop_last();
        lemma_trim_end(t, b);
        assert(t.take(b) =~= s.take(b));
    }
}

/// Copies the characters of a string slice into a vector.
pub fn to_chars(s: &str) -> (v: Vec<char>)
    ensures
        v@ == s@,
{
    let mut v: Vec<char> = Vec::new();
    for c in it: s.chars()
        invariant
            v@ == it.seq().take(it.index() as int),
    {
        v.push(c);
    }
    v
}

/// Builds a string from the characters of a vector.
pub fn from_chars(v: &Vec<char>) -> (s: String)
    ensures
        s@ == v@,
{
    let mut s = String::new();
    let mut i: usize = 0;
    while i < v.len()
        invariant
            i <= v.len(),
            s@ == v@.take(i as int),
        decreases v.len() - i,
    {
        s.push(v[i]);
        i += 1;
    }
    s
}

/// Copies the characters `from..to` of `v`.
pub fn subvec(v: &Vec<char>, from: usize, to: usize) -> (r: Vec<char>)
    requires
        from <= to <= v.len(),
    ensures
        r@ == v@.subrange(from as int, to as int),
{
    let mut r: Vec<char> = Vec::new();
    let mut i: usize = from;
    while i < to
        invariant
            from <= i <= to <= v.len(),
            r@ == v@.subrange(from as int, i as int),
        decreases to - i,
    {
        r.push(v[i]);
        i += 1;
    }
    r
}

/// Appends the characters of `s` to `out`.
pub fn append_chars(out: &mut Vec<char>, s: &Vec<char>)
    ensures
        final(out)@ == old(out)@ + s@,
{
    let mut i: usize = 0;
    while i < s.len()
        invariant
            i <= s.len(),
            out@ == old(out)@ + s@.take(i as int),
        decreases s.len() - i,
    {
        out.push(s[i]);
        i += 1;
    }
}

/// Whether two vectors hold the same characters.
pub fn chars_eq(a: &Vec<char>, b: &Vec<char>) -> (r: bool)
    ensures
        r == (a@ == b@),
{
    if a.len() != b.len() {
        return false;
    }
    let mut i: usize = 0;
    while i < a.len()
        invariant
            i <= a.len(),
            a.len() == b.len(),
            forall|j: int| 0 <= j < i ==> a@[j] == b@[j],
        decreases a.len() - i,
    {
        if a[i] != b[i] {
            return false;
        }
        i += 1;
    }
    assert(a@ =~= b@);
    true
}

/// Whether `c` is whitespace.
pub fn char_is_whitespace(c: char) -> (r: bool)
    ensures
        r == is_whitespace(c),
{
    let n: u32 = c as u32;
    (0x09 <= n && n <= 0x0D) || n == 0x20 || n == 0x85 || n == 0xA0 || n == 0x1680 || (0x2000 <= n
        && n <= 0x200A) || n == 0x2028 || n == 0x2029 || n == 0x202F || n == 0x205F || n == 0x3000
}

/// Whether `pat` stands in `s` at index `i`.
pub fn matches_at(s: &Vec<char>, pat: &Vec<char>, i: usize) -> (r: bool)
    ensures
        r == occurs_at(s@, pat@, i as int),
        r ==> i + pat.len() <= s.len(),
{
    if pat.len() > s.len() || i > s.len() - pat.len() {
        return false;
    }
    let mut k: usize = 0;
    while k < pat.len()
        invariant
            k <= pat.len(),
            i + pat.len() <= s.len(),
            forall|j: int| 0 <= j < k ==> s@[i + j] == pat@[j],
        decreases pat.len() - k,
    {
        if s[i + k] != pat[k] {
            assert(s@.subrange(i as int, i + pat.len())[k as int] != pat@[k as int]);
            return false;
        }
        k += 1;
    }
    assert(s@.subrange(i as int, i + pat.len()) =~= pat@);
    true
}

/// The index of the first occurrence of `pat` in `s`.
pub fn find_in(s: &Vec<char>, pat: &Vec<char>) -> (r: Option<usize>)
    ensures
        match r {
            Some(i) => find(s@, pat@) == Some(i as int) && i + pat.len() <= s.len(),
            None => find(s@, pat@) is None,
        },
{
    if pat.len() > s.len() {
        return None;
    }
    let last: usize = s.len() - pat.len();
    let mut i: usize = 0;
    loop
        invariant
            i <= last,
            last == s.len() - pat.len(),
            forall|j: int| 0 <= j < i ==> !occurs_at(s@, pat@, j),
        decreases last - i,
    {
        if matches_at(s, pat, i) {
            proof {
                lemma_find_first(s@, pat@, i as int);
            }
            return Some(i);
        }
        if i == last {
            return None;
        }
        i += 1;
    }
}

/// The index of the first `c` in `s`.
pub fn find_char(s: &Vec<char>, c: char) -> (r: Option<usize>)
    ensures
        match r {
            Some(i) => first_index(s@, c) == Some(i as int) && i < s.len(),
            None => first_index(s@, c) is None,
        },
{
    let mut i: usize = 0;
    while i < s.len()
        invariant
            i <= s.len(),
            forall|j: int| 0 <= j < i ==> s@[j] != c,
        decreases s.len() - i,
    {
        if s[i] == c {
            proof {
                lemma_first_index(s@, c, i as int);
            }
            return Some(i);
        }
        i += 1;
    }
    None
}

/// The index of the last `c` in `s`.
pub fn rfind_char(s: &Vec<char>, c: char) -> (r: Option<usize>)
    ensures
        match r {
            Some(i) => last_index(s@, c) == Some(i as int) && i < s.len(),
            None => last_index(s@, c) is None,
        },
{
    let mut i: usize = s.len();
    while i > 0
        invariant
            i <= s.len(),
            forall|j: int| i <= j < s.len() ==> s@[j] != c,
        decreases i,
    {
        i -= 1;
        if s[i] == c {
            proof {
                lemma_last_index(s@, c, i as int);
            }
            return Some(i);
        }
    }
    None
}

/// `s` without leading and trailing whitespace.
pub fn trimmed(s: &Vec<char>) -> (r: Vec<char>)
    ensures
        r@ == trim(s@),
{
    let mut a: usize = 0;
    while a < s.len() && char_is_whitespace(s[a])
        invariant
            a <= s.len(),
            forall|j: int| 0 <= j < a ==> is_whitespace(s@[j]),
        decreases s.len() - a,
    {
        a += 1;
    }
    let mut b: usize = s.len();
    while b > a && char_is_whitespace(s[b - 1])
        invariant
            a <= b <= s.len(),
            forall|j: int| b <= j < s.len() ==> is_whitespace(s@[j]),
        decreases b,
    {
        b -= 1;
    }
    proof {
        lemma_trim_start(s@, a as int);
        let t = s@.skip(a as int);
        assert forall|j: int| b - a <= j < t.len() implies is_whitespace(t[j]) by {
            assert(t[j] == s@[j + a]);
        }
        lemma_trim_end(t, b - a);
        assert(t.take(b - a) =~= s@.subrange(a as int, b as int));
    }
    subvec(s, a, b)
}

/// `s` after `pat` has been taken off its front as often as it stands there.
pub fn without_prefixes(s: &Vec<char>, pat: &Vec<char>) -> (r: Vec<char>)
    ensures
        r@ == strip_prefixes(s@, pat@),
{
    let mut a: usize = 0;
    if pat.len() > 0 {
        assert(s@.skip(0) =~= s@);
        while matches_at(s, pat, a)
            invariant
                a <= s.len(),
                pat.len() > 0,
                strip_prefixes(s@, pat@) == strip_prefixes(s@.skip(a as int), pat@),
            decreases s.len() - a,
        {
            proof {
                let t = s@.skip(a as int);
                assert(t.subrange(0, pat@.len() as int) =~= s@.subrange(
                    a as int,
                    a + pat@.len(),
                ));
                assert(occurs_at(t, pat@, 0));
                assert(t.skip(pat@.len() as int) =~= s@.skip(a + pat@.len()));
            }
            a += pat.len();
        }
        proof {
            let t = s@.skip(a as int);
            if a + pat@.len() <= s@.len() {
                assert(t.subrange(0, pat@.len() as int) =~= s@.subrange(a as int, a + pat@.len()));
            }
            assert(!occurs_at(t, pat@, 0));
        }
    } else {
        assert(s@.skip(0) =~= s@);
    }
    assert(s@.skip(a as int) =~= s@.subrange(a as int, s@.len() as int));
    subvec(s, a, s.len())
}

/// `s` after `pat` has been taken off its end as often as it stands there.
pub fn without_suffixes(s: &Vec<char>, pat: &Vec<char>) -> (r: Vec<char>)
    ensures
        r@ == strip_suffixes(s@, pat@),
{
    let mut b: usize = s.len();
    if pat.len() > 0 {
        assert(s@.take(s@.len() as int) =~= s@);
        while b >= pat.len() && matches_at(s, pat, b - pat.len())
            invariant
                b <= s.len(),
                pat.len() > 0,
                strip_suffixes(s@, pat@) == strip_suffixes(s@.take(b as int), pat@),
            decreases b,
        {
            proof {
                let t = s@.take(b as int);
                assert(t.subrange(t.len() - pat@.len(), t.len() as int) =~= s@.subrange(
                    b - pat@.len(),
                    b as int,
                ));
                assert(occurs_at(t, pat@, t.len() - pat@.len()));
                assert(t.take(t.len() - pat@.len()) =~= s@.take(b - pat@.len()));
            }
            b -= pat.len();
        }
        proof {
            let t = s@.take(b as int);
            if b >= pat@.len() {
                assert(t.subrange(t.len() - pat@.len(), t.len() as int) =~= s@.subrange(
                    b - pat@.len(),
                    b as int,
                ));
            }
            assert(!occurs_at(t, pat@, t.len() - pat@.len()));
        }
    } else {
        assert(s@.take(s@.len() as int) =~= s@);
    }
    assert(s@.take(b as int) =~= s@.subrange(0, b as int));
    subvec(s, 0, b)
}

/// The character of the digit `d`.
pub open spec fn digit_char(d: int) -> char {
    ((48 + d) as u8) as char
}

/// `n` in decimal digits, without leading zeros.
pub open spec fn decimal(n: nat) -> Seq<char>
    decreases n,
{
    if n < 10 {
        seq![digit_char(n as int)]
    } else {
        decimal(n / 10).push(digit_char((n % 10) as int))
    }
}

/// Appends `n` in decimal digits to `out`.
pub fn push_decimal(out: &mut Vec<char>, n: usize)
    ensures
        final(out)@ == old(out)@ + decimal(n as nat),
    decreases n,
{
    if n >= 10 {
        push_decimal(out, n / 10);
    }
    let d: u8 = (n % 10) as u8;
    let c: char = (48u8 + d) as char;
    assert(c == digit_char((n % 10) as int));
    out.push(c);
    assert(out@ =~= old(out)@ + decimal(n as nat));
}

/// Where the word that starts at `i` ends: the index of the first whitespace
/// at or after `i`, or the end of `s`.
pub open spec fn word_end(s: Seq<char>, i: int) -> int
    decreases s.len() - i,
{
    if i < 0 || i >= s.len() || is_whitespace(s[i]) {
        i
    } else {
        word_end(s, i + 1)
    }
}

/// A word ends at or after its start, within the text.
pub proof fn lemma_word_end(s: Seq<char>, i: int)
    requires
        0 <= i <= s.len(),
    ensures
        i <= word_end(s, i) <= s.len(),
        i < s.len() && !is_whitespace(s[i]) ==> i < word_end(s, i),
        forall|k: int| i <= k < word_end(s, i) ==> !is_whitespace(s[k]),
        word_end(s, i) == s.len() || is_whitespace(s[word_end(s, i)]),
    decreases s.len() - i,
{
    if i < s.len() && !is_whitespace(s[i]) {
        lemma_word_end(s, i + 1);
    }
}

/// The words of `s` from index `i` on: its longest runs of characters that
/// are not whitespace, from left to right.
pub open spec fn words_from(s: Seq<char>, i: int) -> Seq<Seq<char>>
    decreases s.len() - i,
{
    if i < 0 || i >= s.len() {
        Seq::empty()
    } else if is_whitespace(s[i]) {
        words_from(s, i + 1)
    } else {
        proof {
            lemma_word_end(s, i);
        }
        seq![s.subrange(i, word_end(s, i))] + words_from(s, word_end(s, i))
    }
}

/// The words of `s`.
pub open spec fn words(s: Seq<char>) -> Seq<Seq<char>> {
    words_from(s, 0)
}

/// The views of a sequence of vectors of characters.
pub open spec fn char_views(v: Seq<Vec<char>>) -> Seq<Seq<char>> {
    v.map_values(|w: Vec<char>| w@)
}

/// Splits a text at whitespace into its words.
pub fn split_words(s: &Vec<char>) -> (r: Vec<Vec<char>>)
    ensures
        char_views(r@) == words(s@),
{
    let mut out: Vec<Vec<char>> = Vec::new();
    let mut i: usize = 0;
    assert(char_views(out@) =~= Seq::<Seq<char>>::empty());
    while i < s.len()
        invariant
            i <= s.len(),
            char_views(out@) + words_from(s@, i as int) == words(s@),
        decreases s.len() - i,
    {
        if char_is_whitespace(s[i]) {
            i += 1;
        } else {
            let mut e: usize = i + 1;
            while e < s.len() && !char_is_whitespace(s[e])
                invariant
                    i < e <= s.len(),
                    !is_whitespace(s@[i as int]),
                    word_end(s@, i as int) == word_end(s@, e as int),
                decreases s.len() - e,
            {
                e += 1;
            }
            let ghost before = char_views(out@);
            let word = subvec(s, i, e);
            out.push(word);
            proof {
                assert(word_end(s@, i as int) == e);
                assert(char_views(out@) =~= before.push(word@));
                assert(char_views(out@) + words_from(s@, e as int) =~= before + (seq![word@]
                    + words_from(s@, e as int)));
            }
            i = e;
        }
    }
    assert(char_views(out@) + Seq::<Seq<char>>::empty() =~= char_views(out@));
    out
}

/// Whether `c` is one of the digits `0` to `9`.
pub open spec fn is_digit(c: char) -> bool {
    '0' <= c && c <= '9'
}

/// Whether `s` is made of digits, and of one at least.
pub open spec fn is_digits(s: Seq<char>) -> bool {
    s.len() > 0 && forall|i: int| 0 <= i < s.len() ==> is_digit(#[trigger] s[i])
}

/// The number that the digits `s` are the decimal numeral of.
pub open spec fn digits_value(s: Seq<char>) -> nat
    decreases s.len(),
{
    if s.len() == 0 {
        0
    } else {
        (digits_value(s.drop_last()) * 10 + (s.last() as u8 - 48)) as nat
    }
}

/// The number that `s` is the numeral of, if it is one of a number up to
/// 65535: digits, with or without a `+` before them.
pub open spec fn u16_of(s: Seq<char>) -> Option<u16> {
    let digits = if s.len() > 0 && s[0] == '+' {
        s.skip(1)
    } else {
        s
    };
    if is_digits(digits) && digits_value(digits) <= 65535 {
        Some(digits_value(digits) as u16)
    } else {
        None
    }
}

/// The value of digits does not go down when digits are added.
proof fn lemma_digits_value_grows(s: Seq<char>, k: int)
    requires
        0 <= k <= s.len(),
        forall|i: int| 0 <= i < s.len() ==> is_digit(#[trigger] s[i]),
    ensures
        digits_value(s.take(k)) <= digits_value(s),
    decreases s.len() - k,
{
    if k == s.len() {
        assert(s.take(k) =~= s);
    } else {
        lemma_digits_value_grows(s, k + 1);
        assert(s.take(k + 1).drop_last() =~= s.take(k));
        assert(is_digit(s[k]));
    }
}

/// Reads a numeral as a number up to 65535.
pub fn parse_u16(s: &Vec<char>) -> (r: Option<u16>)
    ensures
        r == u16_of(s@),
{
    let start: usize = if s.len() > 0 && s[0] == '+' {
        1
    } else {
        0
    };
    let ghost digits: Seq<char> = s@.skip(start as int);
    if start == s.len() {
        assert(s@.skip(0) =~= s@);
        return None;
    }
    let mut value: u32 = 0;
    let mut i: usize = start;
    assert(digits.take(0) =~= Seq::<char>::empty());
    while i < s.len()
        invariant
            start <= i <= s.len(),
            start < s.len(),
            start == (if s@.len() > 0 && s@[0] == '+' {
                1int
            } else {
                0int
            }),
            digits == s@.skip(start as int),
            forall|k: int| 0 <= k < i - start ==> is_digit(#[trigger] digits[k]),
            value == digits_value(digits.take(i - start)),
            value <= 65535,
        decreases s.len() - i,
    {
        let c = s[i];
        assert(c == digits[i - start]);
        if !('0' <= c && c <= '9') {
            assert(!is_digit(digits[i - start]));
            assert(s@.skip(0) =~= s@);
            return None;
        }
        let d: u32 = (c as u8 - 48) as u32;
        proof {
            assert(digits.take(i - start + 1).drop_last() =~= digits.take(i - start));
            assert(digits.take(i - start + 1).last() == c);
        }
        value = value * 10 + d;
        assert(value == digits_value(digits.take(i - start + 1)));
        if value > 65535 {
            proof {
                assert(s@.skip(0) =~= s@);
                if is_digits(digits) {
                    lemma_digits_value_grows(digits, i - start + 1);
                }
            }
            return None;
        }
        i += 1;
    }
    assert(digits.take(digits.len() as int) =~= digits);
    assert(is_digits(digits));
    assert(s@.skip(0) =~= s@);
    Some(value as u16)
}

/// The pieces of `s` from index `i` on that stand between the characters
/// `sep`: one piece more than `s` holds separators from `i` on.
pub open spec fn split_from(s: Seq<char>, sep: char, i: int) -> Seq<Seq<char>>
    decreases s.len() - i,
{
    if i < 0 || i > s.len() {
        Seq::empty()
    } else {
        let e = piece_end(s, sep, i);
        if e < s.len() {
            proof {
                lemma_piece_end(s, sep, i);
            }
            seq![s.subrange(i, e)] + split_from(s, sep, e + 1)
        } else {
            seq![s.subrange(i, s.len() as int)]
        }
    }
}

/// Where the piece that starts at `i` ends: the index of the first `sep` at
/// or after `i`, or the end of `s`.
pub open spec fn piece_end(s: Seq<char>, sep: char, i: int) -> int
    decreases s.len() - i,
{
    if i < 0 || i >= s.len() || s[i] == sep {
        i
    } else {
        piece_end(s, sep, i + 1)
    }
}

/// A piece ends at or after its start, within the text, at a separator or
/// at the end, and holds no separator.
pub proof fn lemma_piece_end(s: Seq<char>, sep: char, i: int)
    requires
        0 <= i <= s.len(),
    ensures
        i <= piece_end(s, sep, i) <= s.len(),
        forall|k: int| i <= k < piece_end(s, sep, i) ==> s[k] != sep,
        piece_end(s, sep, i) == s.len() || s[piece_end(s, sep, i)] == sep,
    decreases s.len() - i,
{
    if i < s.len() && s[i] != sep {
        lemma_piece_end(s, sep, i + 1);
    }
}

/// The pieces of `s` between the characters `sep`.
pub open spec fn split(s: Seq<char>, sep: char) -> Seq<Seq<char>> {
    split_from(s, sep, 0)
}

/// Splits a text at every `sep`.
pub fn split_chars(s: &Vec<char>, sep: char) -> (r: Vec<Vec<char>>)
    ensures
        char_views(r@) == split(s@, sep),
{
    let mut out: Vec<Vec<char>> = Vec::new();
    let mut i: usize = 0;
    assert(char_views(out@) =~= Seq::<Seq<char>>::empty());
    loop
        invariant
            i <= s.len(),
            char_views(out@) + split_from(s@, sep, i as int) == split(s@, sep),
        decreases s.len() - i,
    {
        let mut e: usize = i;
        while e < s.len() && s[e] != sep
            invariant
                i <= e <= s.len(),
                piece_end(s@, sep, i as int) == piece_end(s@, sep, e as int),
            decreases s.len() - e,
        {
            e += 1;
        }
        let ghost before = char_views(out@);
        let piece = subvec(s, i, e);
        out.push(piece);
        assert(char_views(out@) =~= before.push(piece@));
        if e == s.len() {
            assert(before + seq![piece@] =~= before.push(piece@));
            return out;
        }
        assert(char_views(out@) + split_from(s@, sep, e + 1) =~= before + (seq![piece@]
            + split_from(s@, sep, e + 1)));
        i = e + 1;
    }
}

/// The line that the piece `piece` before a line break is: the piece without
/// a carriage return at its end.
pub open spec fn line_of(piece: Seq<char>) -> Seq<char> {
    if piece.len() > 0 && piece.last() == '\r' {
        piece.drop_last()
    } else {
        piece
    }
}

/// The lines that `pieces`, the pieces of a text between its line breaks,
/// stand for: each piece before a line break as a line, and the last piece
/// as it is, unless it is empty.
pub open spec fn lines_of_pieces(pieces: Seq<Seq<char>>) -> Seq<Seq<char>> {
    let ended = Seq::new((pieces.len() - 1) as nat, |k: int| line_of(pieces[k]));
    if pieces.len() > 0 && pieces.last().len() > 0 {
        ended.push(pieces.last())
    } else {
        ended
    }
}

/// The lines of a text. A line ends at a line break, with or without a
/// carriage return before it; the end of the text ends the last line.
pub open spec fn lines(s: Seq<char>) -> Seq<Seq<char>> {
    lines_of_pieces(split(s, '\n'))
}

/// Splits a text into its lines.
pub fn split_lines(s: &Vec<char>) -> (r: Vec<Vec<char>>)
    ensures
        char_views(r@) == lines(s@),
{
    let pieces = split_chars(s, '\n');
    let ghost views = char_views(pieces@);
    let mut out: Vec<Vec<char>> = Vec::new();
    if pieces.len() == 0 {
        assert(char_views(out@) =~= lines_of_pieces(views));
        return out;
    }
    let n: usize = pieces.len() - 1;
    let mut k: usize = 0;
    while k < n
        invariant
            k <= n,
            n == pieces.len() - 1,
            views == char_views(pieces@),
            out@.len() == k,
            forall|j: int| 0 <= j < k ==> (#[trigger] out@[j])@ == line_of(views[j]),
        decreases n - k,
    {
        let piece = &pieces[k];
        assert(piece@ == views[k as int]);
        let line = if piece.len() > 0 && piece[piece.len() - 1] == '\r' {
            assert(piece@.drop_last() =~= piece@.subrange(0, piece@.len() - 1));
            subvec(piece, 0, piece.len() - 1)
        } else {
            assert(piece@ =~= piece@.subrange(0, piece@.len() as int));
            subvec(piece, 0, piece.len())
        };
        out.push(line);
        k += 1;
    }
    let last = &pieces[n];
    assert(last@ == views[n as int]);
    if last.len() > 0 {
        assert(last@ =~= last@.subrange(0, last@.len() as int));
        out.push(subvec(last, 0, last.len()));
    }
    assert(char_views(out@) =~= lines_of_pieces(views));
    out
}

/// `items` one after another, with `sep` between them.
pub open spec fn joined(items: Seq<Seq<char>>, sep: Seq<char>) -> Seq<char>
    decreases items.len(),
{
    if items.len() == 0 {
        Seq::empty()
    } else if items.len() == 1 {
        items[0]
    } else {
        joined(items.drop_last(), sep) + sep + items.last()
    }
}

/// Puts `items` one after another, with `sep` between them.
pub fn join_chars(items: &Vec<Vec<char>>, sep: &Vec<char>) -> (r: Vec<char>)
    ensures
        r@ == joined(char_views(items@), sep@),
{
    let ghost views = char_views(items@);
    let mut out: Vec<char> = Vec::new();
    let mut k: usize = 0;
    assert(views.take(0) =~= Seq::<Seq<char>>::empty());
    while k < items.len()
        invariant
            k <= items.len(),
            views == char_views(items@),
            out@ == joined(views.take(k as int), sep@),
        decreases items.len() - k,
    {
        let ghost before = out@;
        proof {
            assert(views.take(k + 1).drop_last() =~= views.take(k as int));
            assert(views.take(k + 1).last() == items@[k as int]@);
        }
        if k > 0 {
            append_chars(&mut out, sep);
        }
        append_chars(&mut out, &items[k]);
        proof {
            if k == 0 {
                assert(out@ =~= items@[0]@);
                assert(views.take(1)[0] == items@[0]@);
            }
        }
        k += 1;
    }
    assert(views.take(views.len() as int) =~= views);
    out
}

/// The pieces of `s` between the occurrences of `pat`, found from left to
/// right, each behind the one before. An empty `pat` splits nothing.
pub open spec fn split_by(s: Seq<char>, pat: Seq<char>) -> Seq<Seq<char>>
    decreases s.len(),
{
    match find(s, pat) {
        Some(i) => if pat.len() > 0 && 0 <= i && i + pat.len() <= s.len() {
            seq![s.take(i)] + split_by(s.skip(i + pat.len()), pat)
        } else {
            seq![s]
        },
        None => seq![s],
    }
}

/// Splits a text at every occurrence of `pat`.
pub fn split_text(s: &Vec<char>, pat: &Vec<char>) -> (r: Vec<Vec<char>>)
    ensures
        char_views(r@) == split_by(s@, pat@),
{
    let mut out: Vec<Vec<char>> = Vec::new();
    let mut rest: Vec<char> = subvec(s, 0, s.len());
    assert(rest@ =~= s@);
    assert(char_views(out@) =~= Seq::<Seq<char>>::empty());
    loop
        invariant
            char_views(out@) + split_by(rest@, pat@) == split_by(s@, pat@),
        decreases rest.len(),
    {
        let ghost before = char_views(out@);
        let found = if pat.len() > 0 {
            find_in(&rest, pat)
        } else {
            None
        };
        match found {
            Some(i) => {
                let piece = subvec(&rest, 0, i);
                let tail = subvec(&rest, i + pat.len(), rest.len());
                assert(piece@ =~= rest@.take(i as int));
                assert(tail@ =~= rest@.skip(i + pat@.len()));
                out.push(piece);
                assert(char_views(out@) =~= before.push(piece@));
                assert(char_views(out@) + split_by(tail@, pat@) =~= before + (seq![piece@]
                    + split_by(tail@, pat@)));
                rest = tail;
            },
            None => {
                out.push(rest);
                assert(char_views(out@) =~= before + seq![rest@]);
                return out;
            },
        }
    }
}

} // verus!
