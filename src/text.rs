//! Small facts about text that the rest of the library states its contracts in.

use vstd::prelude::*;

verus! {

/// The decimal digit character for `d < 10`.
pub open spec fn digit(d: nat) -> char {
    if d == 0 {
        '0'
    } else if d == 1 {
        '1'
    } else if d == 2 {
        '2'
    } else if d == 3 {
        '3'
    } else if d == 4 {
        '4'
    } else if d == 5 {
        '5'
    } else if d == 6 {
        '6'
    } else if d == 7 {
        '7'
    } else if d == 8 {
        '8'
    } else {
        '9'
    }
}

/// `n` written in decimal, without leading zeros.
pub open spec fn decimal(n: nat) -> Seq<char>
    decreases n,
{
    if n < 10 {
        seq![digit(n)]
    } else {
        decimal(n / 10).push(digit(n % 10))
    }
}

/// The characters with the Unicode property White_Space.
pub open spec fn is_white_space(c: char) -> bool {
    ||| '\u{9}' <= c <= '\u{d}'
    ||| c == ' '
    ||| c == '\u{85}'
    ||| c == '\u{a0}'
    ||| c == '\u{1680}'
    ||| '\u{2000}' <= c <= '\u{200a}'
    ||| c == '\u{2028}'
    ||| c == '\u{2029}'
    ||| c == '\u{202f}'
    ||| c == '\u{205f}'
    ||| c == '\u{3000}'
}

/// The word `cur` as a list of at most one word.
pub open spec fn word_if_any(cur: Seq<char>) -> Seq<Seq<char>> {
    if cur.len() == 0 {
        Seq::empty()
    } else {
        seq![cur]
    }
}

/// The maximal runs of non-white-space characters of `s`, in order, where
/// `cur` is the part of a run already read before `s`.
pub open spec fn words_from(cur: Seq<char>, s: Seq<char>) -> Seq<Seq<char>>
    decreases s.len(),
{
    if s.len() == 0 {
        word_if_any(cur)
    } else if is_white_space(s[0]) {
        word_if_any(cur) + words_from(Seq::empty(), s.drop_first())
    } else {
        words_from(cur.push(s[0]), s.drop_first())
    }
}

/// The words of `s`: its maximal runs of characters other than white space.
pub open spec fn words(s: Seq<char>) -> Seq<Seq<char>> {
    words_from(Seq::empty(), s)
}

/// The text of each string of `v`.
pub open spec fn texts(v: Seq<String>) -> Seq<Seq<char>> {
    v.map_values(|s: String| s@)
}

/// The digit `d < 10` as text.
fn digit_text(d: u32) -> (r: String)
    requires
        d < 10,
    ensures
        r@ == seq![digit(d as nat)],
{
    proof {
        reveal_strlit("0");
        reveal_strlit("1");
        reveal_strlit("2");
        reveal_strlit("3");
        reveal_strlit("4");
        reveal_strlit("5");
        reveal_strlit("6");
        reveal_strlit("7");
        reveal_strlit("8");
        reveal_strlit("9");
    }
    let r = if d == 0 {
        "0"
    } else if d == 1 {
        "1"
    } else if d == 2 {
        "2"
    } else if d == 3 {
        "3"
    } else if d == 4 {
        "4"
    } else if d == 5 {
        "5"
    } else if d == 6 {
        "6"
    } else if d == 7 {
        "7"
    } else if d == 8 {
        "8"
    } else {
        "9"
    };
    let t = r.to_string();
    assert(t@ =~= seq![digit(d as nat)]);
    t
}

/// `n` in decimal, without leading zeros.
pub fn decimal_text(n: u32) -> (r: String)
    ensures
        r@ == decimal(n as nat),
    decreases n,
{
    let last = digit_text(n % 10);
    if n < 10 {
        last
    } else {
        let r = decimal_text(n / 10).concat(last.as_str());
        assert(r@ =~= decimal((n / 10) as nat).push(digit((n % 10) as nat)));
        r
    }
}

/// Relies on `str::split_whitespace`: the sub-slices separated by any amount of
/// White_Space, with none empty.
#[verifier::external_body]
pub(crate) fn split_words(s: &str) -> (r: Vec<String>)
    ensures
        texts(r@) == words(s@),
{
    s.split_whitespace().map(|w| w.to_string()).collect()
}

/// A copy of each string of `v`.
pub fn copy_strings(v: &Vec<String>) -> (r: Vec<String>)
    ensures
        r@ == v@,
{
    let mut r: Vec<String> = Vec::new();
    let mut i: usize = 0;
    while i < v.len()
        invariant
            i <= v.len(),
            r@ == v@.subrange(0, i as int),
        decreases v.len() - i,
    {
        r.push(v[i].clone());
        i = i + 1;
        assert(r@ =~= v@.subrange(0, i as int));
    }
    assert(v@.subrange(0, v.len() as int) =~= v@);
    r
}

/// Whether `a` and `b` hold the same text.
pub fn same_text(a: &String, b: &str) -> (r: bool)
    ensures
        r == (a@ == b@),
{
    let owned = b.to_string();
    *a == owned
}

/// `s` without leading white space.
pub open spec fn trim_start(s: Seq<char>) -> Seq<char>
    decreases s.len(),
{
    if s.len() > 0 && is_white_space(s[0]) {
        trim_start(s.drop_first())
    } else {
        s
    }
}

/// `s` without trailing white space.
pub open spec fn trim_end(s: Seq<char>) -> Seq<char>
    decreases s.len(),
{
    if s.len() > 0 && is_white_space(s.last()) {
        trim_end(s.drop_last())
    } else {
        s
    }
}

/// `s` without leading and trailing white space.
pub open spec fn trim(s: Seq<char>) -> Seq<char> {
    trim_end(trim_start(s))
}

/// The position of the first `c` in `s`, or -1.
pub open spec fn find_char(s: Seq<char>, c: char) -> int
    decreases s.len(),
{
    if s.len() == 0 {
        -1
    } else if s[0] == c {
        0
    } else {
        let r = find_char(s.drop_first(), c);
        if r < 0 {
            -1
        } else {
            r + 1
        }
    }
}

/// The part of `s` before its first `c`; all of `s` when it has none.
pub open spec fn before_char(s: Seq<char>, c: char) -> Seq<char> {
    let k = find_char(s, c);
    if k < 0 {
        s
    } else {
        s.take(k)
    }
}

/// The part of `s` after its first `c`, if it has one.
pub open spec fn after_char(s: Seq<char>, c: char) -> Option<Seq<char>> {
    let k = find_char(s, c);
    if k < 0 {
        None
    } else {
        Some(s.skip(k + 1))
    }
}

/// The pieces of `s` separated by `sep`, where `cur` is the start of the
/// current piece read before `s`.
pub open spec fn split_from(cur: Seq<char>, s: Seq<char>, sep: char) -> Seq<Seq<char>>
    decreases s.len(),
{
    if s.len() == 0 {
        seq![cur]
    } else if s[0] == sep {
        seq![cur] + split_from(Seq::empty(), s.drop_first(), sep)
    } else {
        split_from(cur.push(s[0]), s.drop_first(), sep)
    }
}

/// Splitting yields at least one piece.
pub proof fn lemma_split_nonempty(cur: Seq<char>, s: Seq<char>, sep: char)
    ensures
        split_from(cur, s, sep).len() >= 1,
    decreases s.len(),
{
    if s.len() > 0 {
        if s[0] == sep {
            lemma_split_nonempty(Seq::empty(), s.drop_first(), sep);
        } else {
            lemma_split_nonempty(cur.push(s[0]), s.drop_first(), sep);
        }
    }
}

/// The pieces of `s` separated by `sep`; always at least one, possibly empty.
pub open spec fn split(s: Seq<char>, sep: char) -> Seq<Seq<char>> {
    split_from(Seq::empty(), s, sep)
}

/// Whether `c` is an ASCII digit.
pub open spec fn is_digit(c: char) -> bool {
    '0' <= c <= '9'
}

/// The value of the decimal digits `s`.
pub open spec fn digits_value(s: Seq<char>) -> nat
    decreases s.len(),
{
    if s.len() == 0 {
        0
    } else {
        digits_value(s.drop_last()) * 10 + ((s.last() as u32) - ('0' as u32)) as nat
    }
}

/// `s` without a leading `+`.
pub open spec fn unsigned_part(s: Seq<char>) -> Seq<char> {
    if s.len() > 0 && s[0] == '+' {
        s.drop_first()
    } else {
        s
    }
}

/// Whether every character of `d` is an ASCII digit.
pub open spec fn all_digits(d: Seq<char>) -> bool {
    forall|i: int| 0 <= i < d.len() ==> is_digit(#[trigger] d[i])
}

/// `s` read as an unsigned 64-bit integer: an optional `+` and one or more
/// ASCII digits whose value fits; `None` for anything else.
pub open spec fn parse_u64(s: Seq<char>) -> Option<u64> {
    let d = unsigned_part(s);
    if d.len() == 0 || !all_digits(d) {
        None
    } else if digits_value(d) > u64::MAX {
        None
    } else {
        Some(digits_value(d) as u64)
    }
}

/// The characters of `s`.
pub fn chars_of(s: &str) -> (r: Vec<char>)
    ensures
        r@ == s@,
{
    let n = s.unicode_len();
    let mut r: Vec<char> = Vec::new();
    let mut i: usize = 0;
    while i < n
        invariant
            n == s@.len(),
            i <= n,
            r@ == s@.take(i as int),
        decreases n - i,
    {
        r.push(s.get_char(i));
        i = i + 1;
        assert(r@ =~= s@.take(i as int));
    }
    assert(s@.take(n as int) =~= s@);
    r
}

/// Whether `c` has the Unicode property White_Space.
pub fn is_space(c: char) -> (r: bool)
    ensures
        r == is_white_space(c),
{
    ('\u{9}' <= c && c <= '\u{d}') || c == ' ' || c == '\u{85}' || c == '\u{a0}' || c == '\u{1680}'
        || ('\u{2000}' <= c && c <= '\u{200a}') || c == '\u{2028}' || c == '\u{2029}' || c == '\u{202f}'
        || c == '\u{205f}' || c == '\u{3000}'
}

/// The window `[lo, hi)` of `v` with surrounding white space removed, as a
/// window.
pub fn trim_window(v: &Vec<char>, lo: usize, hi: usize) -> (r: (usize, usize))
    requires
        lo <= hi <= v@.len(),
    ensures
        lo <= r.0 <= r.1 <= hi,
        v@.subrange(r.0 as int, r.1 as int) == trim(v@.subrange(lo as int, hi as int)),
{
    let mut a = lo;
    while a < hi && is_space(v[a])
        invariant
            lo <= a <= hi <= v@.len(),
            trim_start(v@.subrange(a as int, hi as int)) == trim_start(v@.subrange(lo as int, hi as int)),
        decreases hi - a,
    {
        assert(v@.subrange(a as int, hi as int).drop_first() =~= v@.subrange(a + 1, hi as int));
        a = a + 1;
    }
    let mut b = hi;
    while b > a && is_space(v[b - 1])
        invariant
            lo <= a <= b <= hi <= v@.len(),
            trim_end(v@.subrange(a as int, b as int)) == trim_end(v@.subrange(a as int, hi as int)),
        decreases b - a,
    {
        assert(v@.subrange(a as int, b as int).drop_last() =~= v@.subrange(a as int, b - 1));
        b = b - 1;
    }
    (a, b)
}

/// The position of the first `c` in the window `[lo, hi)` of `v`.
pub fn find_in_window(v: &Vec<char>, lo: usize, hi: usize, c: char) -> (r: Option<usize>)
    requires
        lo <= hi <= v@.len(),
    ensures
        match r {
            Some(k) => lo <= k < hi && find_char(v@.subrange(lo as int, hi as int), c) == k - lo,
            None => find_char(v@.subrange(lo as int, hi as int), c) == -1,
        },
{
    let mut k = lo;
    while k < hi
        invariant
            lo <= k <= hi <= v@.len(),
            forall|j: int| lo <= j < k ==> v@[j] != c,
        decreases hi - k,
    {
        if v[k] == c {
            proof {
                lemma_find_char_at(v@, lo as int, hi as int, k as int, c);
            }
            return Some(k);
        }
        k = k + 1;
    }
    proof {
        lemma_find_char_absent(v@, lo as int, hi as int, c);
    }
    None
}

proof fn lemma_find_char_at(v: Seq<char>, lo: int, hi: int, k: int, c: char)
    requires
        0 <= lo <= k < hi <= v.len(),
        v[k] == c,
        forall|j: int| lo <= j < k ==> v[j] != c,
    ensures
        find_char(v.subrange(lo, hi), c) == k - lo,
    decreases k - lo,
{
    if lo < k {
        lemma_find_char_at(v, lo + 1, hi, k, c);
        assert(v.subrange(lo, hi).drop_first() =~= v.subrange(lo + 1, hi));
    }
}

proof fn lemma_find_char_absent(v: Seq<char>, lo: int, hi: int, c: char)
    requires
        0 <= lo <= hi <= v.len(),
        forall|j: int| lo <= j < hi ==> v[j] != c,
    ensures
        find_char(v.subrange(lo, hi), c) == -1,
    decreases hi - lo,
{
    if lo < hi {
        lemma_find_char_absent(v, lo + 1, hi, c);
        assert(v.subrange(lo, hi).drop_first() =~= v.subrange(lo + 1, hi));
    }
}

/// The windows of `v` that the pieces of `[lo, hi)` separated by `sep` occupy.
pub open spec fn windows_text(v: Seq<char>, w: Seq<(usize, usize)>) -> Seq<Seq<char>> {
    w.map_values(|p: (usize, usize)| v.subrange(p.0 as int, p.1 as int))
}

/// The windows of the pieces of `[lo, hi)` of `v` separated by `sep`.
pub fn split_window(v: &Vec<char>, lo: usize, hi: usize, sep: char) -> (r: Vec<(usize, usize)>)
    requires
        lo <= hi <= v@.len(),
    ensures
        windows_text(v@, r@) == split(v@.subrange(lo as int, hi as int), sep),
        forall|k: int| 0 <= k < r@.len() ==> lo <= (#[trigger] r@[k]).0 <= r@[k].1 <= hi,
{
    let mut r: Vec<(usize, usize)> = Vec::new();
    let mut start = lo;
    let mut i = lo;
    assert(v@.subrange(lo as int, lo as int) =~= Seq::<char>::empty());
    assert(windows_text(v@, r@) =~= Seq::<Seq<char>>::empty());
    assert(windows_text(v@, r@) + split(v@.subrange(lo as int, hi as int), sep) =~= split(
        v@.subrange(lo as int, hi as int),
        sep,
    ));
    while i < hi
        invariant
            lo <= start <= i <= hi <= v@.len(),
            forall|k: int| 0 <= k < r@.len() ==> lo <= (#[trigger] r@[k]).0 <= r@[k].1 <= hi,
            windows_text(v@, r@) + split_from(v@.subrange(start as int, i as int), v@.subrange(i as int, hi as int), sep)
                == split(v@.subrange(lo as int, hi as int), sep),
        decreases hi - i,
    {
        let ghost rest = v@.subrange(i as int, hi as int);
        assert(rest.drop_first() =~= v@.subrange(i + 1, hi as int));
        assert(rest[0] == v@[i as int]);
        if v[i] == sep {
            let ghost prev = r@;
            r.push((start, i));
            assert(windows_text(v@, r@) =~= windows_text(v@, prev).push(v@.subrange(start as int, i as int)));
            assert(v@.subrange(i + 1, i + 1) =~= Seq::<char>::empty());
            start = i + 1;
            assert(windows_text(v@, r@) + split_from(v@.subrange(start as int, i + 1), v@.subrange(i + 1, hi as int), sep)
                =~= windows_text(v@, prev) + split_from(v@.subrange(r@.last().0 as int, i as int), rest, sep));
        } else {
            assert(v@.subrange(start as int, i as int).push(v@[i as int]) =~= v@.subrange(start as int, i + 1));
        }
        i = i + 1;
    }
    let ghost prev = r@;
    r.push((start, hi));
    assert(v@.subrange(hi as int, hi as int) =~= Seq::<char>::empty());
    assert(windows_text(v@, r@) =~= windows_text(v@, prev).push(v@.subrange(start as int, hi as int)));
    r
}

proof fn lemma_digits_mono(d: Seq<char>, j: int)
    requires
        0 <= j <= d.len(),
    ensures
        digits_value(d.take(j)) <= digits_value(d),
    decreases d.len(),
{
    if j < d.len() {
        lemma_digits_mono(d.drop_last(), j);
        assert(d.drop_last().take(j) =~= d.take(j));
    } else {
        assert(d.take(j) =~= d);
    }
}

/// The window `[lo, hi)` of `v` read as an unsigned 64-bit integer.
pub fn parse_u64_window(v: &Vec<char>, lo: usize, hi: usize) -> (r: Option<u64>)
    requires
        lo <= hi <= v@.len(),
    ensures
        r == parse_u64(v@.subrange(lo as int, hi as int)),
{
    let ghost s = v@.subrange(lo as int, hi as int);
    let mut a = lo;
    if a < hi && v[a] == '+' {
        a = a + 1;
    }
    let ghost d = v@.subrange(a as int, hi as int);
    assert(d == unsigned_part(s));
    if a == hi {
        return None;
    }
    let mut acc: u64 = 0;
    let mut i = a;
    while i < hi
        invariant
            lo <= a <= i <= hi <= v@.len(),
            s == v@.subrange(lo as int, hi as int),
            d == v@.subrange(a as int, hi as int),
            d == unsigned_part(s),
            forall|j: int| a <= j < i ==> is_digit(#[trigger] v@[j]),
            acc == digits_value(v@.subrange(a as int, i as int)),
        decreases hi - i,
    {
        let c = v[i];
        if !('0' <= c && c <= '9') {
            assert(d[i - a] == v@[i as int]);
            assert(!is_digit(d[i - a]));
            assert(parse_u64(s) is None);
            return None;
        }
        let next: u128 = (acc as u128) * 10 + ((c as u32) - 48) as u128;
        assert(v@.subrange(a as int, i + 1).drop_last() =~= v@.subrange(a as int, i as int));
        assert(next == digits_value(v@.subrange(a as int, i + 1)));
        if next > u64::MAX as u128 {
            proof {
                if all_digits(d) {
                    assert(d.take(i + 1 - a) =~= v@.subrange(a as int, i + 1));
                    lemma_digits_mono(d, i + 1 - a);
                    assert(digits_value(d) > u64::MAX);
                }
            }
            assert(parse_u64(s) is None);
            return None;
        }
        acc = next as u64;
        i = i + 1;
    }
    assert(v@.subrange(a as int, i as int) =~= d);
    assert(all_digits(d)) by {
        assert forall|j: int| 0 <= j < d.len() implies is_digit(#[trigger] d[j]) by {
            assert(d[j] == v@[a + j]);
        }
    }
    Some(acc)
}

} // verus!
