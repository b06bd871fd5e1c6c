//! Release version strings: parsing into a core triple with optional
//! pre-release identifiers, and their precedence.

use crate::text::{
    after_char, before_char, chars_of, find_in_window, parse_u64, parse_u64_window, split, split_window, trim,
    trim_window, windows_text,
};
use vstd::prelude::*;

verus! {

/// `s` without its leading `v` and `V` characters.
pub open spec fn strip_v(s: Seq<char>) -> Seq<char>
    decreases s.len(),
{
    if s.len() > 0 && (s[0] == 'v' || s[0] == 'V') {
        strip_v(s.drop_first())
    } else {
        s
    }
}

/// `c` with an ASCII upper-case letter made lower-case.
pub open spec fn ascii_lower(c: char) -> char {
    if 'A' <= c <= 'Z' {
        ((c as u32) + 32) as char
    } else {
        c
    }
}

// ------------------------------------------------------------- version specs

/// A pre-release identifier: numeric, or alphanumeric in lower case.
pub enum IdentView {
    Numeric(u64),
    Alpha(Seq<char>),
}

/// A parsed version: the major, minor and patch numbers, and the pre-release
/// identifiers if there are any.
pub struct VersionView {
    pub core: Seq<u64>,
    pub pre: Option<Seq<IdentView>>,
}

/// A core number: the piece read as an integer after trimming, or zero.
pub open spec fn core_number(piece: Seq<char>) -> u64 {
    match parse_u64(trim(piece)) {
        Some(n) => n,
        None => 0,
    }
}

/// The three core numbers of `part`: its first three dot-separated pieces,
/// zero for a missing piece.
pub open spec fn core_of(part: Seq<char>) -> Seq<u64> {
    let pieces = split(part, '.');
    Seq::new(3, |k: int| if k < pieces.len() { core_number(pieces[k]) } else { 0 })
}

/// A pre-release identifier read from a non-empty piece.
pub open spec fn ident_of(piece: Seq<char>) -> IdentView {
    match parse_u64(piece) {
        Some(n) => IdentView::Numeric(n),
        None => IdentView::Alpha(piece.map_values(|c: char| ascii_lower(c))),
    }
}

/// The identifiers of the non-empty dot-separated pieces of `part`.
pub open spec fn idents_of(pieces: Seq<Seq<char>>) -> Seq<IdentView>
    decreases pieces.len(),
{
    if pieces.len() == 0 {
        Seq::empty()
    } else if pieces.last().len() == 0 {
        idents_of(pieces.drop_last())
    } else {
        idents_of(pieces.drop_last()).push(ident_of(pieces.last()))
    }
}

/// The pre-release identifiers of `part`, `None` when it has none.
pub open spec fn pre_of(part: Option<Seq<char>>) -> Option<Seq<IdentView>> {
    match part {
        None => None,
        Some(p) => {
            let ids = idents_of(split(p, '.'));
            if ids.len() == 0 {
                None
            } else {
                Some(ids)
            }
        },
    }
}

/// The version that `input` denotes: surrounding white space and leading
/// `v`/`V` ignored, build metadata after `+` dropped, the core before the
/// first `-` and the pre-release identifiers after it.
pub open spec fn parse_spec(input: Seq<char>) -> VersionView {
    let normalized = strip_v(trim(input));
    let no_build = before_char(normalized, '+');
    VersionView {
        core: core_of(before_char(no_build, '-')),
        pre: pre_of(after_char(no_build, '-')),
    }
}

/// -1, 0 or 1 as `a` is less than, equal to or greater than `b`.
pub open spec fn cmp_int(a: int, b: int) -> int {
    if a < b {
        -1
    } else if a > b {
        1
    } else {
        0
    }
}

/// The lexicographic order of character sequences, by code point.
pub open spec fn cmp_text(a: Seq<char>, b: Seq<char>) -> int
    decreases a.len(),
{
    if a.len() == 0 {
        if b.len() == 0 {
            0
        } else {
            -1
        }
    } else if b.len() == 0 {
        1
    } else if a[0] < b[0] {
        -1
    } else if a[0] > b[0] {
        1
    } else {
        cmp_text(a.drop_first(), b.drop_first())
    }
}

/// The text order is antisymmetric, and only equal texts compare equal.
pub proof fn lemma_cmp_text_antisymmetric(a: Seq<char>, b: Seq<char>)
    ensures
        cmp_text(b, a) == -cmp_text(a, b),
        cmp_text(a, b) == 0 ==> a == b,
        -1 <= cmp_text(a, b) <= 1,
    decreases a.len(),
{
    if a.len() > 0 && b.len() > 0 && a[0] == b[0] {
        lemma_cmp_text_antisymmetric(a.drop_first(), b.drop_first());
        if cmp_text(a, b) == 0 {
            assert(a =~= seq![a[0]] + a.drop_first());
            assert(b =~= seq![b[0]] + b.drop_first());
        }
    } else if a.len() == 0 && b.len() == 0 {
        assert(a =~= b);
    }
}

/// The text order is transitive, strictly so when either step is strict.
pub proof fn lemma_cmp_text_transitive(a: Seq<char>, b: Seq<char>, c: Seq<char>)
    ensures
        cmp_text(a, b) <= 0 && cmp_text(b, c) <= 0 ==> cmp_text(a, c) <= 0,
        cmp_text(a, b) < 0 && cmp_text(b, c) <= 0 ==> cmp_text(a, c) < 0,
        cmp_text(a, b) <= 0 && cmp_text(b, c) < 0 ==> cmp_text(a, c) < 0,
    decreases a.len(),
{
    if a.len() > 0 && b.len() > 0 && c.len() > 0 && a[0] == b[0] && b[0] == c[0] {
        lemma_cmp_text_transitive(a.drop_first(), b.drop_first(), c.drop_first());
    }
}

/// The order of identifiers: numeric ones by value, before alphanumeric ones,
/// which go by text.
pub open spec fn cmp_ident(a: IdentView, b: IdentView) -> int {
    match (a, b) {
        (IdentView::Numeric(x), IdentView::Numeric(y)) => cmp_int(x as int, y as int),
        (IdentView::Numeric(_), IdentView::Alpha(_)) => -1,
        (IdentView::Alpha(_), IdentView::Numeric(_)) => 1,
        (IdentView::Alpha(x), IdentView::Alpha(y)) => cmp_text(x, y),
    }
}

/// The lexicographic order of identifier lists; a proper prefix comes first.
pub open spec fn cmp_idents(a: Seq<IdentView>, b: Seq<IdentView>) -> int
    decreases a.len(),
{
    if a.len() == 0 {
        if b.len() == 0 {
            0
        } else {
            -1
        }
    } else if b.len() == 0 {
        1
    } else if cmp_ident(a[0], b[0]) != 0 {
        cmp_ident(a[0], b[0])
    } else {
        cmp_idents(a.drop_first(), b.drop_first())
    }
}

/// The precedence of versions: by core numbers in order; with equal cores a
/// version without pre-release identifiers comes after one with them, and
/// two with them go by their identifiers.
pub open spec fn cmp_version(a: VersionView, b: VersionView) -> int {
    if a.core[0] != b.core[0] {
        cmp_int(a.core[0] as int, b.core[0] as int)
    } else if a.core[1] != b.core[1] {
        cmp_int(a.core[1] as int, b.core[1] as int)
    } else if a.core[2] != b.core[2] {
        cmp_int(a.core[2] as int, b.core[2] as int)
    } else {
        match (a.pre, b.pre) {
            (None, None) => 0,
            (None, Some(_)) => 1,
            (Some(_), None) => -1,
            (Some(x), Some(y)) => cmp_idents(x, y),
        }
    }
}

// ------------------------------------------------------------- executable

/// A pre-release identifier.
#[derive(Debug, Clone, PartialEq, Eq)]
pub enum PreIdent {
    Numeric(u64),
    /// An alphanumeric identifier, in lower case.
    AlphaNum(Vec<char>),
}

impl View for PreIdent {
    type V = IdentView;

    open spec fn view(&self) -> IdentView {
        match self {
            PreIdent::Numeric(n) => IdentView::Numeric(*n),
            PreIdent::AlphaNum(t) => IdentView::Alpha(t@),
        }
    }
}

/// The views of the identifiers of `v`.
pub open spec fn idents_view(v: Seq<PreIdent>) -> Seq<IdentView> {
    v.map_values(|x: PreIdent| x@)
}

/// A parsed release version.
#[derive(Debug, Clone, PartialEq, Eq)]
pub struct ParsedVersion {
    pub core: [u64; 3],
    pub pre: Option<Vec<PreIdent>>,
}

impl View for ParsedVersion {
    type V = VersionView;

    open spec fn view(&self) -> VersionView {
        VersionView {
            core: self.core@,
            pre: match self.pre {
                Some(v) => Some(idents_view(v@)),
                None => None,
            },
        }
    }
}

/// The window `[lo, hi)` of `v` without its leading `v` and `V`.
fn strip_v_window(v: &Vec<char>, lo: usize, hi: usize) -> (r: usize)
    requires
        lo <= hi <= v@.len(),
    ensures
        lo <= r <= hi,
        v@.subrange(r as int, hi as int) == strip_v(v@.subrange(lo as int, hi as int)),
{
    let mut a = lo;
    while a < hi && (v[a] == 'v' || v[a] == 'V')
        invariant
            lo <= a <= hi <= v@.len(),
            strip_v(v@.subrange(a as int, hi as int)) == strip_v(v@.subrange(lo as int, hi as int)),
        decreases hi - a,
    {
        assert(v@.subrange(a as int, hi as int).drop_first() =~= v@.subrange(a + 1, hi as int));
        a = a + 1;
    }
    a
}

/// The identifier that the non-empty window `[lo, hi)` of `v` denotes.
fn ident_window(v: &Vec<char>, lo: usize, hi: usize) -> (r: PreIdent)
    requires
        lo <= hi <= v@.len(),
    ensures
        r@ == ident_of(v@.subrange(lo as int, hi as int)),
{
    match parse_u64_window(v, lo, hi) {
        Some(n) => PreIdent::Numeric(n),
        None => {
            let ghost s = v@.subrange(lo as int, hi as int);
            let mut t: Vec<char> = Vec::new();
            let mut i = lo;
            while i < hi
                invariant
                    lo <= i <= hi <= v@.len(),
                    s == v@.subrange(lo as int, hi as int),
                    t@ =~= s.take(i - lo).map_values(|c: char| ascii_lower(c)),
                decreases hi - i,
            {
                let c = v[i];
                let l = if 'A' <= c && c <= 'Z' {
                    ((c as u8) + 32) as char
                } else {
                    c
                };
                t.push(l);
                i = i + 1;
                assert(t@ =~= s.take(i - lo).map_values(|c: char| ascii_lower(c)));
            }
            assert(s.take(hi - lo) =~= s);
            PreIdent::AlphaNum(t)
        },
    }
}

/// The core number of the window `[lo, hi)` of `v`.
fn core_number_window(v: &Vec<char>, lo: usize, hi: usize) -> (r: u64)
    requires
        lo <= hi <= v@.len(),
    ensures
        r == core_number(v@.subrange(lo as int, hi as int)),
{
    let (a, b) = trim_window(v, lo, hi);
    match parse_u64_window(v, a, b) {
        Some(n) => n,
        None => 0,
    }
}

/// The three core numbers of the window `[lo, hi)` of `v`.
fn core_window(v: &Vec<char>, lo: usize, hi: usize) -> (r: [u64; 3])
    requires
        lo <= hi <= v@.len(),
    ensures
        r@ == core_of(v@.subrange(lo as int, hi as int)),
{
    let pieces = split_window(v, lo, hi, '.');
    let ghost ptext = windows_text(v@, pieces@);
    let c0 = if 0 < pieces.len() {
        core_number_window(v, pieces[0].0, pieces[0].1)
    } else {
        0
    };
    let c1 = if 1 < pieces.len() {
        core_number_window(v, pieces[1].0, pieces[1].1)
    } else {
        0
    };
    let c2 = if 2 < pieces.len() {
        core_number_window(v, pieces[2].0, pieces[2].1)
    } else {
        0
    };
    let core: [u64; 3] = [c0, c1, c2];
    assert(core@ =~= core_of(v@.subrange(lo as int, hi as int)));
    core
}

/// The pre-release identifiers of the window `[pa, pb)` of `v`.
fn pre_window_idents(v: &Vec<char>, pa: usize, pb: usize) -> (r: Option<Vec<PreIdent>>)
    requires
        pa <= pb <= v@.len(),
    ensures
        match r {
            Some(ids) => pre_of(Some(v@.subrange(pa as int, pb as int))) == Some(idents_view(ids@)),
            None => pre_of(Some(v@.subrange(pa as int, pb as int))) is None,
        },
{
    let parts = split_window(v, pa, pb, '.');
    let ghost text = windows_text(v@, parts@);
    let mut ids: Vec<PreIdent> = Vec::new();
    let mut k: usize = 0;
    assert(text.take(0) =~= Seq::<Seq<char>>::empty());
    assert(idents_view(ids@) =~= Seq::<IdentView>::empty());
    while k < parts.len()
        invariant
            k <= parts@.len(),
            text == windows_text(v@, parts@),
            forall|j: int| 0 <= j < parts@.len() ==> pa <= (#[trigger] parts@[j]).0 <= parts@[j].1 <= pb,
            pb <= v@.len(),
            idents_view(ids@) == idents_of(text.take(k as int)),
        decreases parts.len() - k,
    {
        let (x, y) = parts[k];
        assert(text.take(k + 1).drop_last() =~= text.take(k as int));
        assert(text.take(k + 1).last() == v@.subrange(x as int, y as int));
        if x < y {
            let id = ident_window(v, x, y);
            let ghost prev = ids@;
            ids.push(id);
            assert(idents_view(ids@) =~= idents_view(prev).push(id@));
        }
        k = k + 1;
    }
    assert(text.take(parts@.len() as int) =~= text);
    if ids.len() == 0 {
        None
    } else {
        Some(ids)
    }
}

/// Reads the version that `input` denotes.
pub fn parse_version(input: &str) -> (r: ParsedVersion)
    ensures
        r@ == parse_spec(input@),
{
    let v = chars_of(input);
    let n = v.len();
    assert(v@.subrange(0, n as int) =~= input@);
    let (a, b) = trim_window(&v, 0, n);
    let s = strip_v_window(&v, a, b);
    let ghost normalized = v@.subrange(s as int, b as int);
    assert(normalized == strip_v(trim(input@)));
    let end = match find_in_window(&v, s, b, '+') {
        Some(k) => {
            assert(normalized.take(k - s) =~= v@.subrange(s as int, k as int));
            k
        },
        None => b,
    };
    let ghost no_build = v@.subrange(s as int, end as int);
    assert(no_build == before_char(normalized, '+'));
    let (core_end, pre_window) = match find_in_window(&v, s, end, '-') {
        Some(k) => {
            assert(no_build.take(k - s) =~= v@.subrange(s as int, k as int));
            assert(no_build.skip(k - s + 1) =~= v@.subrange(k + 1, end as int));
            (k, Some((k + 1, end)))
        },
        None => (end, None),
    };
    let core = core_window(&v, s, core_end);
    let pre = match pre_window {
        None => None,
        Some((pa, pb)) => pre_window_idents(&v, pa, pb),
    };
    ParsedVersion { core, pre }
}

/// The ordering that -1, 0 and 1 stand for.
pub open spec fn ordering_of(c: int) -> core::cmp::Ordering {
    if c < 0 {
        core::cmp::Ordering::Less
    } else if c > 0 {
        core::cmp::Ordering::Greater
    } else {
        core::cmp::Ordering::Equal
    }
}

fn cmp_u64(a: u64, b: u64) -> (r: core::cmp::Ordering)
    ensures
        r == ordering_of(cmp_int(a as int, b as int)),
{
    if a < b {
        core::cmp::Ordering::Less
    } else if a > b {
        core::cmp::Ordering::Greater
    } else {
        core::cmp::Ordering::Equal
    }
}

pub(crate) fn cmp_char_seqs(a: &Vec<char>, b: &Vec<char>) -> (r: core::cmp::Ordering)
    ensures
        r == ordering_of(cmp_text(a@, b@)),
{
    let mut i: usize = 0;
    assert(a@.skip(0) =~= a@);
    assert(b@.skip(0) =~= b@);
    while i < a.len() && i < b.len() && a[i] == b[i]
        invariant
            i <= a@.len(),
            i <= b@.len(),
            a@.take(i as int) == b@.take(i as int),
            cmp_text(a@, b@) == cmp_text(a@.skip(i as int), b@.skip(i as int)),
        decreases a.len() - i,
    {
        assert(a@.skip(i as int).drop_first() =~= a@.skip(i + 1));
        assert(b@.skip(i as int).drop_first() =~= b@.skip(i + 1));
        assert(a@.take(i + 1) =~= a@.take(i as int).push(a@[i as int]));
        assert(b@.take(i + 1) =~= b@.take(i as int).push(b@[i as int]));
        i = i + 1;
    }
    if i == a.len() {
        assert(a@.skip(i as int) =~= Seq::<char>::empty());
        if i == b.len() {
            assert(b@.skip(i as int) =~= Seq::<char>::empty());
            core::cmp::Ordering::Equal
        } else {
            core::cmp::Ordering::Less
        }
    } else if i == b.len() {
        assert(b@.skip(i as int) =~= Seq::<char>::empty());
        core::cmp::Ordering::Greater
    } else {
        assert(a@.skip(i as int)[0] == a@[i as int]);
        assert(b@.skip(i as int)[0] == b@[i as int]);
        assert(a@.skip(i as int).len() > 0 && b@.skip(i as int).len() > 0);
        assert(a@[i as int] != b@[i as int]);
        if a[i] < b[i] {
            core::cmp::Ordering::Less
        } else {
            core::cmp::Ordering::Greater
        }
    }
}

impl PreIdent {
    /// The precedence of two identifiers.
    pub fn cmp(&self, other: &PreIdent) -> (r: core::cmp::Ordering)
        ensures
            r == ordering_of(cmp_ident(self@, other@)),
    {
        match (self, other) {
            (PreIdent::Numeric(a), PreIdent::Numeric(b)) => cmp_u64(*a, *b),
            (PreIdent::Numeric(_), PreIdent::AlphaNum(_)) => core::cmp::Ordering::Less,
            (PreIdent::AlphaNum(_), PreIdent::Numeric(_)) => core::cmp::Ordering::Greater,
            (PreIdent::AlphaNum(a), PreIdent::AlphaNum(b)) => cmp_char_seqs(a, b),
        }
    }
}

impl ParsedVersion {
    /// The precedence of two versions.
    pub fn cmp(&self, other: &ParsedVersion) -> (r: core::cmp::Ordering)
        ensures
            r == ordering_of(cmp_version(self@, other@)),
    {
        if self.core[0] != other.core[0] {
            return cmp_u64(self.core[0], other.core[0]);
        }
        if self.core[1] != other.core[1] {
            return cmp_u64(self.core[1], other.core[1]);
        }
        if self.core[2] != other.core[2] {
            return cmp_u64(self.core[2], other.core[2]);
        }
        match (&self.pre, &other.pre) {
            (None, None) => core::cmp::Ordering::Equal,
            (None, Some(_)) => core::cmp::Ordering::Greater,
            (Some(_), None) => core::cmp::Ordering::Less,
            (Some(a), Some(b)) => {
                let ghost x = idents_view(a@);
                let ghost y = idents_view(b@);
                assert(self@.pre == Some(x));
                assert(other@.pre == Some(y));
                assert(self@.core[0] == other@.core[0] && self@.core[1] == other@.core[1] && self@.core[2]
                    == other@.core[2]);
                assert(cmp_version(self@, other@) == cmp_idents(x, y));
                let mut i: usize = 0;
                assert(x.skip(0) =~= x);
                assert(y.skip(0) =~= y);
                while i < a.len() && i < b.len()
                    invariant
                        i <= a@.len(),
                        i <= b@.len(),
                        x == idents_view(a@),
                        y == idents_view(b@),
                        cmp_version(self@, other@) == cmp_idents(x, y),
                        cmp_idents(x, y) == cmp_idents(x.skip(i as int), y.skip(i as int)),
                    decreases a.len() - i,
                {
                    let c = a[i].cmp(&b[i]);
                    assert(x.skip(i as int)[0] == a@[i as int]@);
                    assert(y.skip(i as int)[0] == b@[i as int]@);
                    assert(x.skip(i as int).len() > 0 && y.skip(i as int).len() > 0);
                    match c {
                        core::cmp::Ordering::Equal => {},
                        _ => {
                            assert(cmp_idents(x.skip(i as int), y.skip(i as int)) == cmp_ident(
                                a@[i as int]@,
                                b@[i as int]@,
                            ));
                            return c;
                        },
                    }
                    assert(x.skip(i as int).drop_first() =~= x.skip(i + 1));
                    assert(y.skip(i as int).drop_first() =~= y.skip(i + 1));
                    i = i + 1;
                }
                if i < a.len() {
                    assert(y.skip(i as int) =~= Seq::<IdentView>::empty());
                    core::cmp::Ordering::Greater
                } else if i < b.len() {
                    assert(x.skip(i as int) =~= Seq::<IdentView>::empty());
                    core::cmp::Ordering::Less
                } else {
                    assert(x.skip(i as int) =~= Seq::<IdentView>::empty());
                    assert(y.skip(i as int) =~= Seq::<IdentView>::empty());
                    core::cmp::Ordering::Equal
                }
            },
        }
    }
}

/// Whether `latest` denotes a later version than `current`.
pub fn compare_versions(current: &str, latest: &str) -> (r: bool)
    ensures
        r == (cmp_version(parse_spec(latest@), parse_spec(current@)) > 0),
{
    let c = parse_version(current);
    let l = parse_version(latest);
    match l.cmp(&c) {
        core::cmp::Ordering::Greater => true,
        _ => false,
    }
}

} // verus!
