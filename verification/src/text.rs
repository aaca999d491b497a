//! Text as sequences of characters: searching, trimming, splitting, decimal
//! numbers. Every function here has the meaning of the method of the same
//! purpose in the standard library, stated over `Seq<char>`.

use vstd::prelude::*;

verus! {

/// The characters of a text.
pub type Text = Seq<char>;

/// `String::push` appends one character.
pub assume_specification[ String::push ](s: &mut String, ch: char)
    ensures
        final(s)@ == old(s)@.push(ch),
;

// ---------------------------------------------------------------------
// Characters

/// An ASCII decimal digit.
pub open spec fn is_digit(c: char) -> bool {
    '0' <= c <= '9'
}

/// A character of Unicode's `White_Space` class.
pub open spec fn is_space(c: char) -> bool {
    ||| '\u{9}' <= c <= '\u{d}'
    ||| c == ' '
    ||| c == '\u{85}'
    ||| c == '\u{a0}'
    ||| c == '\u{1680}'
    ||| '\u{2000}' <= c <= '\u{200a}'
    ||| c == '\u{2028}'
    ||| c == '\u{2029}'
    ||| c == '\u{202f}'
    ||| c == '\u{205f}'
    ||| c == '\u{3000}'
}

/// The ASCII lower-case form of a character; anything but `A`–`Z` is kept.
pub open spec fn lower(c: char) -> char {
    if 'A' <= c <= 'Z' {
        (c as u32 + 32) as char
    } else {
        c
    }
}

/// The ASCII lower-case form of a text.
pub open spec fn lowered(s: Text) -> Text {
    s.map_values(|c: char| lower(c))
}

pub fn digit(c: char) -> (r: bool)
    ensures
        r == is_digit(c),
{
    '0' <= c && c <= '9'
}

pub fn space(c: char) -> (r: bool)
    ensures
        r == is_space(c),
{
    ('\u{9}' <= c && c <= '\u{d}') || c == ' ' || c == '\u{85}' || c == '\u{a0}' || c == '\u{1680}'
        || ('\u{2000}' <= c && c <= '\u{200a}') || c == '\u{2028}' || c == '\u{2029}' || c
        == '\u{202f}' || c == '\u{205f}' || c == '\u{3000}'
}

pub fn lower_char(c: char) -> (r: char)
    ensures
        r == lower(c),
{
    if 'A' <= c && c <= 'Z' {
        let code: u8 = c as u8;
        (code + 32) as char
    } else {
        c
    }
}

pub fn chars_of(s: &str) -> (r: Vec<char>)
    ensures
        r@ == s@,
{
    let mut out: Vec<char> = Vec::new();
    for c in it: s.chars()
        invariant
            out@ =~= s@.take(it.index()),
            it.seq() == s@,
    {
        out.push(c);
    }
    out
}

/// The characters `from..to` as a text.
pub fn slice(v: &Vec<char>, from: usize, to: usize) -> (r: String)
    requires
        from <= to <= v@.len(),
    ensures
        r@ == v@.subrange(from as int, to as int),
{
    let mut out = String::new();
    let mut i: usize = from;
    while i < to
        invariant
            from <= i <= to <= v@.len(),
            out@ =~= v@.subrange(from as int, i as int),
        decreases to - i,
    {
        out.push(v[i]);
        i = i + 1;
    }
    out
}

/// Are two texts the same?
pub fn same(a: &str, b: &str) -> (r: bool)
    ensures
        r == (a@ == b@),
{
    let x = chars_of(a);
    let y = chars_of(b);
    same_chars(&x, &y)
}

fn same_chars(x: &Vec<char>, y: &Vec<char>) -> (r: bool)
    ensures
        r == (x@ == y@),
{
    if x.len() != y.len() {
        return false;
    }
    let mut i: usize = 0;
    while i < x.len()
        invariant
            i <= x@.len(),
            x@.len() == y@.len(),
            forall|k: int| 0 <= k < i ==> x@[k] == y@[k],
        decreases x@.len() - i,
    {
        if x[i] != y[i] {
            return false;
        }
        i = i + 1;
    }
    assert(x@ =~= y@);
    true
}

/// The texts of a list of strings.
pub open spec fn texts(v: Seq<String>) -> Seq<Text> {
    v.map_values(|s: String| s@)
}

/// The text of an optional string.
pub open spec fn opt_text(o: Option<String>) -> Option<Text> {
    match o {
        Some(s) => Some(s@),
        None => None,
    }
}

/// The text of an optional borrowed string.
pub open spec fn opt_str(o: Option<&str>) -> Option<Text> {
    match o {
        Some(s) => Some(s@),
        None => None,
    }
}

pub fn clone_opt(o: &Option<String>) -> (r: Option<String>)
    ensures
        opt_text(r) == opt_text(*o),
{
    match o {
        Some(s) => Some(s.clone()),
        None => None,
    }
}

pub fn clone_all(v: &Vec<String>) -> (r: Vec<String>)
    ensures
        texts(r@) == texts(v@),
{
    let mut out: Vec<String> = Vec::new();
    let mut i: usize = 0;
    while i < v.len()
        invariant
            i <= v@.len(),
            texts(out@) =~= texts(v@.take(i as int)),
        decreases v@.len() - i,
    {
        let item = v[i].clone();
        let ghost before = out@;
        out.push(item);
        assert(texts(out@) =~= texts(before).push(v@[i as int]@));
        i = i + 1;
    }
    assert(v@.take(i as int) =~= v@);
    out
}

/// The texts of a list of pairs of strings.
pub open spec fn pair_texts(v: Seq<(String, String)>) -> Seq<(Text, Text)> {
    v.map_values(|p: (String, String)| (p.0@, p.1@))
}

pub fn clone_pairs(v: &Vec<(String, String)>) -> (r: Vec<(String, String)>)
    ensures
        pair_texts(r@) == pair_texts(v@),
{
    let mut out: Vec<(String, String)> = Vec::new();
    let mut i: usize = 0;
    while i < v.len()
        invariant
            i <= v@.len(),
            pair_texts(out@) =~= pair_texts(v@.take(i as int)),
        decreases v@.len() - i,
    {
        let a = v[i].0.clone();
        let b = v[i].1.clone();
        let ghost before = out@;
        out.push((a, b));
        assert(pair_texts(out@) =~= pair_texts(before).push((a@, b@)));
        i = i + 1;
    }
    assert(v@.take(i as int) =~= v@);
    out
}

pub fn same_lists(a: &Vec<String>, b: &Vec<String>) -> (r: bool)
    ensures
        r == (texts(a@) == texts(b@)),
{
    if a.len() != b.len() {
        assert(texts(a@).len() != texts(b@).len());
        return false;
    }
    let mut i: usize = 0;
    while i < a.len()
        invariant
            i <= a@.len() == b@.len(),
            forall|k: int| 0 <= k < i ==> texts(a@)[k] == texts(b@)[k],
        decreases a@.len() - i,
    {
        if a[i] != b[i] {
            assert(texts(a@)[i as int] != texts(b@)[i as int]);
            return false;
        }
        i = i + 1;
    }
    assert(texts(a@) =~= texts(b@));
    true
}

// ---------------------------------------------------------------------
// Searching

/// Does `pat` stand in `s` at index `i`?
pub open spec fn occurs_at(s: Text, pat: Text, i: int) -> bool {
    &&& 0 <= i
    &&& i + pat.len() <= s.len()
    &&& s.subrange(i, i + pat.len()) == pat
}

pub open spec fn begins(s: Text, pat: Text) -> bool {
    occurs_at(s, pat, 0)
}

pub open spec fn ends(s: Text, pat: Text) -> bool {
    occurs_at(s, pat, s.len() - pat.len())
}

pub open spec fn has(s: Text, pat: Text) -> bool {
    exists|i: int| occurs_at(s, pat, i)
}

/// The first index, from `i` on, at which `pat` stands in `s`.
pub open spec fn find_from(s: Text, pat: Text, i: int) -> Option<int>
    decreases s.len() - i + 1,
{
    if i + pat.len() > s.len() {
        None
    } else if occurs_at(s, pat, i) {
        Some(i)
    } else {
        find_from(s, pat, i + 1)
    }
}

/// The first index at which `pat` stands in `s`.
pub open spec fn find(s: Text, pat: Text) -> Option<int> {
    find_from(s, pat, 0)
}

/// `find` gives the first occurrence, and gives one wherever there is one.
pub proof fn find_is_the_first(s: Text, pat: Text)
    ensures
        match find(s, pat) {
            Some(i) => occurs_at(s, pat, i) && forall|k: int| k < i ==> !occurs_at(s, pat, k),
            None => forall|k: int| !occurs_at(s, pat, k),
        },
        find(s, pat) is Some <==> has(s, pat),
{
    lemma_find_from(s, pat, 0);
    match find(s, pat) {
        Some(i) => {
            assert(occurs_at(s, pat, i));
        },
        None => {},
    }
}

proof fn lemma_find_from(s: Text, pat: Text, i: int)
    requires
        0 <= i,
    ensures
        match find_from(s, pat, i) {
            Some(j) => i <= j && occurs_at(s, pat, j) && forall|k: int|
                i <= k < j ==> !occurs_at(s, pat, k),
            None => forall|k: int| i <= k ==> !occurs_at(s, pat, k),
        },
    decreases s.len() - i + 1,
{
    if i + pat.len() <= s.len() && !occurs_at(s, pat, i) {
        lemma_find_from(s, pat, i + 1);
        assert forall|k: int| i <= k && (match find_from(s, pat, i) {
            Some(j) => k < j,
            None => true,
        }) implies !occurs_at(s, pat, k) by {
            if k > i {
                assert(i + 1 <= k);
            }
        }
    }
}

fn occurs(v: &Vec<char>, pat: &Vec<char>, i: usize) -> (r: bool)
    requires
        i + pat@.len() <= v@.len(),
    ensures
        r == occurs_at(v@, pat@, i as int),
{
    let n: usize = v.len();
    let mut k: usize = 0;
    while k < pat.len()
        invariant
            i + pat@.len() <= v@.len() == n,
            k <= pat@.len(),
            forall|j: int| 0 <= j < k ==> v@[i + j] == pat@[j],
        decreases pat@.len() - k,
    {
        if v[i + k] != pat[k] {
            assert(v@.subrange(i as int, i + pat@.len())[k as int] != pat@[k as int]);
            return false;
        }
        k = k + 1;
    }
    assert(v@.subrange(i as int, i + pat@.len()) =~= pat@);
    true
}

pub fn find_chars(v: &Vec<char>, pat: &Vec<char>) -> (r: Option<usize>)
    ensures
        match r {
            Some(i) => find(v@, pat@) == Some(i as int) && i + pat@.len() <= v@.len(),
            None => find(v@, pat@) is None,
        },
{
    if pat.len() > v.len() {
        return None;
    }
    let last: usize = v.len() - pat.len();
    let mut i: usize = 0;
    loop
        invariant
            i <= last,
            last == v@.len() - pat@.len(),
            find(v@, pat@) == find_from(v@, pat@, i as int),
        decreases last - i,
    {
        if occurs(v, pat, i) {
            return Some(i);
        }
        if i == last {
            assert(find_from(v@, pat@, i + 1) is None);
            return None;
        }
        i = i + 1;
    }
}

pub fn starts_with(s: &str, pat: &str) -> (r: bool)
    ensures
        r == begins(s@, pat@),
{
    let v = chars_of(s);
    let p = chars_of(pat);
    p.len() <= v.len() && occurs(&v, &p, 0)
}

pub fn ends_with(s: &str, pat: &str) -> (r: bool)
    ensures
        r == ends(s@, pat@),
{
    let v = chars_of(s);
    let p = chars_of(pat);
    p.len() <= v.len() && occurs(&v, &p, v.len() - p.len())
}

pub fn contains(s: &str, pat: &str) -> (r: bool)
    ensures
        r == has(s@, pat@),
{
    let v = chars_of(s);
    let p = chars_of(pat);
    proof {
        find_is_the_first(s@, pat@);
    }
    find_chars(&v, &p).is_some()
}

/// What follows the prefix `pat`, where `s` begins with it.
pub open spec fn after_prefix(s: Text, pat: Text) -> Option<Text> {
    if begins(s, pat) {
        Some(s.skip(pat.len() as int))
    } else {
        None
    }
}

/// What stands before the suffix `pat`, where `s` ends with it.
pub open spec fn before_suffix(s: Text, pat: Text) -> Option<Text> {
    if ends(s, pat) {
        Some(s.take(s.len() - pat.len()))
    } else {
        None
    }
}

pub fn strip_prefix(s: &str, pat: &str) -> (r: Option<String>)
    ensures
        opt_text(r) == after_prefix(s@, pat@),
{
    let v = chars_of(s);
    let p = chars_of(pat);
    if p.len() <= v.len() && occurs(&v, &p, 0) {
        let rest = slice(&v, p.len(), v.len());
        assert(rest@ =~= s@.skip(pat@.len() as int));
        Some(rest)
    } else {
        None
    }
}

pub fn strip_suffix(s: &str, pat: &str) -> (r: Option<String>)
    ensures
        opt_text(r) == before_suffix(s@, pat@),
{
    let v = chars_of(s);
    let p = chars_of(pat);
    if p.len() <= v.len() && occurs(&v, &p, v.len() - p.len()) {
        let rest = slice(&v, 0, v.len() - p.len());
        assert(rest@ =~= s@.take(s@.len() - pat@.len()));
        Some(rest)
    } else {
        None
    }
}

/// The two sides of the first `pat` in `s`.
pub open spec fn cut(s: Text, pat: Text) -> Option<(Text, Text)> {
    match find(s, pat) {
        Some(i) => Some((s.take(i), s.skip(i + pat.len()))),
        None => None,
    }
}

/// The texts of an optional pair of strings.
pub open spec fn opt_pair(o: Option<(String, String)>) -> Option<(Text, Text)> {
    match o {
        Some((a, b)) => Some((a@, b@)),
        None => None,
    }
}

pub fn split_once(s: &str, pat: &str) -> (r: Option<(String, String)>)
    ensures
        opt_pair(r) == cut(s@, pat@),
{
    let v = chars_of(s);
    let p = chars_of(pat);
    let n: usize = v.len();
    match find_chars(&v, &p) {
        Some(i) => {
            let a = slice(&v, 0, i);
            let b = slice(&v, i + p.len(), n);
            assert(a@ =~= s@.take(i as int));
            assert(b@ =~= s@.skip(i + pat@.len()));
            Some((a, b))
        },
        None => None,
    }
}

// ---------------------------------------------------------------------
// Runs of characters of one class

/// The class of characters a scan goes over.
#[derive(Clone, Copy, PartialEq, Eq, Structural)]
pub enum Class {
    /// Whitespace.
    Space,
    /// Anything but whitespace.
    NotSpace,
    /// ASCII digits.
    Digit,
    /// Single and double quotes.
    Quote,
    /// Anything but this character.
    Not(char),
    /// Anything but whitespace and commas.
    NotSpaceOrComma,
    /// Anything but slashes and backslashes.
    NotSlash,
}

pub open spec fn in_class(c: char, k: Class) -> bool {
    match k {
        Class::Space => is_space(c),
        Class::NotSpace => !is_space(c),
        Class::Digit => is_digit(c),
        Class::Quote => c == '\'' || c == '"',
        Class::Not(x) => c != x,
        Class::NotSpaceOrComma => !(is_space(c) || c == ','),
        Class::NotSlash => c != '/' && c != '\\',
    }
}

pub fn member(c: char, k: Class) -> (r: bool)
    ensures
        r == in_class(c, k),
{
    match k {
        Class::Space => space(c),
        Class::NotSpace => !space(c),
        Class::Digit => digit(c),
        Class::Quote => c == '\'' || c == '"',
        Class::Not(x) => c != x,
        Class::NotSpaceOrComma => !(space(c) || c == ','),
        Class::NotSlash => c != '/' && c != '\\',
    }
}

/// Is every character of `s` in the class?
pub open spec fn all_in(s: Text, k: Class) -> bool {
    forall|i: int| 0 <= i < s.len() ==> in_class(#[trigger] s[i], k)
}

/// The end of the run of class `k` that starts at `i`.
pub open spec fn run_end(s: Text, k: Class, i: int) -> int
    decreases s.len() - i,
{
    if 0 <= i < s.len() && in_class(s[i], k) {
        run_end(s, k, i + 1)
    } else {
        i
    }
}

/// The start of the run of class `k` that ends before `j`.
pub open spec fn run_start(s: Text, k: Class, j: int) -> int
    decreases j,
{
    if 0 < j <= s.len() && in_class(s[j - 1], k) {
        run_start(s, k, j - 1)
    } else {
        j
    }
}

/// The run that starts at `i` is as long as it can be.
pub proof fn run_end_is_maximal(s: Text, k: Class, i: int)
    requires
        0 <= i <= s.len(),
    ensures
        i <= run_end(s, k, i) <= s.len(),
        all_in(s.subrange(i, run_end(s, k, i)), k),
        run_end(s, k, i) < s.len() ==> !in_class(s[run_end(s, k, i)], k),
    decreases s.len() - i,
{
    if i < s.len() && in_class(s[i], k) {
        run_end_is_maximal(s, k, i + 1);
        let e = run_end(s, k, i);
        let inner = s.subrange(i + 1, e);
        let whole = s.subrange(i, e);
        assert forall|j: int| 0 <= j < whole.len() implies in_class(#[trigger] whole[j], k) by {
            if j > 0 {
                assert(whole[j] == inner[j - 1]);
            }
        }
    }
}

/// The run that ends before `j` is as long as it can be.
pub proof fn run_start_is_maximal(s: Text, k: Class, j: int)
    requires
        0 <= j <= s.len(),
    ensures
        0 <= run_start(s, k, j) <= j,
        all_in(s.subrange(run_start(s, k, j), j), k),
        run_start(s, k, j) > 0 ==> !in_class(s[run_start(s, k, j) - 1], k),
    decreases j,
{
    if 0 < j && in_class(s[j - 1], k) {
        run_start_is_maximal(s, k, j - 1);
        let b = run_start(s, k, j);
        let inner = s.subrange(b, j - 1);
        let whole = s.subrange(b, j);
        assert forall|i: int| 0 <= i < whole.len() implies in_class(#[trigger] whole[i], k) by {
            if i < inner.len() {
                assert(whole[i] == inner[i]);
            }
        }
    }
}

/// A run is where its characters are of the class and the one before is not.
pub proof fn run_start_is(s: Text, k: Class, b: int, j: int)
    requires
        0 <= b <= j <= s.len(),
        all_in(s.subrange(b, j), k),
        b > 0 ==> !in_class(s[b - 1], k),
    ensures
        run_start(s, k, j) == b,
    decreases j,
{
    if b < j {
        let whole = s.subrange(b, j);
        assert(whole[j - 1 - b] == s[j - 1]);
        let inner = s.subrange(b, j - 1);
        assert forall|i: int| 0 <= i < inner.len() implies in_class(#[trigger] inner[i], k) by {
            assert(inner[i] == whole[i]);
        }
        run_start_is(s, k, b, j - 1);
    }
}

pub fn end_of_run(v: &Vec<char>, k: Class, i: usize) -> (r: usize)
    requires
        i <= v@.len(),
    ensures
        r == run_end(v@, k, i as int),
        i <= r <= v@.len(),
{
    let mut e: usize = i;
    while e < v.len() && member(v[e], k)
        invariant
            i <= e <= v@.len(),
            run_end(v@, k, i as int) == run_end(v@, k, e as int),
        decreases v@.len() - e,
    {
        e = e + 1;
    }
    e
}

pub fn start_of_run(v: &Vec<char>, k: Class, j: usize) -> (r: usize)
    requires
        j <= v@.len(),
    ensures
        r == run_start(v@, k, j as int),
        r <= j,
{
    let mut b: usize = j;
    while b > 0 && member(v[b - 1], k)
        invariant
            b <= j <= v@.len(),
            run_start(v@, k, j as int) == run_start(v@, k, b as int),
        decreases b,
    {
        b = b - 1;
    }
    b
}

/// `s` without the leading characters of the class.
pub open spec fn trimmed_front(s: Text, k: Class) -> Text {
    s.skip(run_end(s, k, 0))
}

/// `s` without the trailing characters of the class.
pub open spec fn trimmed_back(s: Text, k: Class) -> Text {
    s.take(run_start(s, k, s.len() as int))
}

/// `s` without the characters of the class at both ends.
pub open spec fn trimmed_of(s: Text, k: Class) -> Text {
    trimmed_back(trimmed_front(s, k), k)
}

/// `s` without the whitespace at both ends.
pub open spec fn trimmed(s: Text) -> Text {
    trimmed_of(s, Class::Space)
}

/// A run ends where its characters are of the class and the next is not.
pub proof fn run_end_is(s: Text, k: Class, i: int, e: int)
    requires
        0 <= i <= e <= s.len(),
        all_in(s.subrange(i, e), k),
        e < s.len() ==> !in_class(s[e], k),
    ensures
        run_end(s, k, i) == e,
    decreases e - i,
{
    if i < e {
        let whole = s.subrange(i, e);
        assert(whole[0] == s[i]);
        let inner = s.subrange(i + 1, e);
        assert forall|j: int| 0 <= j < inner.len() implies in_class(#[trigger] inner[j], k) by {
            assert(inner[j] == whole[j + 1]);
        }
        run_end_is(s, k, i + 1, e);
    }
}

/// What trimming leaves: from the first to the last character outside the
/// class.
pub proof fn trimmed_is(s: Text, k: Class, i: int, j: int)
    requires
        0 <= i < j <= s.len(),
        forall|x: int| 0 <= x < i ==> in_class(#[trigger] s[x], k),
        forall|x: int| j <= x < s.len() ==> in_class(#[trigger] s[x], k),
        !in_class(s[i], k),
        !in_class(s[j - 1], k),
    ensures
        trimmed_of(s, k) == s.subrange(i, j),
{
    run_end_is(s, k, 0, i);
    let front = s.skip(i);
    assert(front.len() == s.len() - i);
    assert(front[j - 1 - i] == s[j - 1]);
    run_start_is(front, k, j - i, front.len() as int);
    assert(front.take(j - i) =~= s.subrange(i, j));
}

/// Nothing is left of a text all of the class.
pub proof fn trimmed_nothing(s: Text, k: Class)
    requires
        all_in(s, k),
    ensures
        trimmed_of(s, k) == Seq::<char>::empty(),
{
    assert(s.subrange(0, s.len() as int) =~= s);
    run_end_is(s, k, 0, s.len() as int);
    assert(trimmed_front(s, k) =~= Seq::<char>::empty());
    assert(trimmed_of(s, k) =~= Seq::<char>::empty());
}

/// The bounds of what trimming leaves of a text not all of the class.
pub proof fn trim_bounds(s: Text, k: Class) -> (r: (int, int))
    requires
        !all_in(s, k),
    ensures
        0 <= r.0 < r.1 <= s.len(),
        forall|x: int| 0 <= x < r.0 ==> in_class(#[trigger] s[x], k),
        forall|x: int| r.1 <= x < s.len() ==> in_class(#[trigger] s[x], k),
        !in_class(s[r.0], k),
        !in_class(s[r.1 - 1], k),
        trimmed_of(s, k) == s.subrange(r.0, r.1),
{
    run_end_is_maximal(s, k, 0);
    run_start_is_maximal(s, k, s.len() as int);
    let i = run_end(s, k, 0);
    let j = run_start(s, k, s.len() as int);
    let front = s.subrange(0, i);
    let back = s.subrange(j, s.len() as int);
    assert forall|x: int| 0 <= x < i implies in_class(#[trigger] s[x], k) by {
        assert(front[x] == s[x]);
    }
    assert forall|x: int| j <= x < s.len() implies in_class(#[trigger] s[x], k) by {
        assert(back[x - j] == s[x]);
    }
    let out = choose|x: int| 0 <= x < s.len() && !in_class(#[trigger] s[x], k);
    assert(i <= out < j);
    trimmed_is(s, k, i, j);
    (i, j)
}

/// Characters of the class at either end make no difference to trimming.
pub proof fn trimmed_ignores_ends(a: Text, s: Text, b: Text, k: Class)
    requires
        all_in(a, k),
        all_in(b, k),
    ensures
        trimmed_of(a + s + b, k) == trimmed_of(s, k),
{
    let t = a + s + b;
    if all_in(s, k) {
        assert forall|x: int| 0 <= x < t.len() implies in_class(#[trigger] t[x], k) by {
            if x < a.len() {
                assert(t[x] == a[x]);
            } else if x < a.len() + s.len() {
                assert(t[x] == s[x - a.len()]);
            } else {
                assert(t[x] == b[x - a.len() - s.len()]);
            }
        }
        trimmed_nothing(s, k);
        trimmed_nothing(t, k);
    } else {
        let (i, j) = trim_bounds(s, k);
        let n = a.len() as int;
        assert(t[i + n] == s[i] && t[j + n - 1] == s[j - 1]);
        assert forall|x: int| 0 <= x < i + n implies in_class(#[trigger] t[x], k) by {
            if x < n {
                assert(t[x] == a[x]);
            } else {
                assert(t[x] == s[x - n]);
            }
        }
        assert forall|x: int| j + n <= x < t.len() implies in_class(#[trigger] t[x], k) by {
            if x < n + s.len() {
                assert(t[x] == s[x - n]);
            } else {
                assert(t[x] == b[x - n - s.len()]);
            }
        }
        trimmed_is(t, k, i + n, j + n);
        assert(t.subrange(i + n, j + n) =~= s.subrange(i, j));
    }
}

/// A text that neither starts nor ends with a character of the class is left
/// as it is.
pub proof fn trimmed_already(s: Text, k: Class)
    requires
        s.len() > 0 ==> !in_class(s[0], k) && !in_class(s.last(), k),
    ensures
        trimmed_of(s, k) == s,
{
    if s.len() == 0 {
        trimmed_nothing(s, k);
    } else {
        trimmed_is(s, k, 0, s.len() as int);
        assert(s.subrange(0, s.len() as int) =~= s);
    }
}

pub fn trim_of(s: &str, k: Class) -> (r: String)
    ensures
        r@ == trimmed_of(s@, k),
{
    let v = chars_of(s);
    let b = end_of_run(&v, k, 0);
    let front = tail_chars(&v, b);
    assert(front@ =~= trimmed_front(s@, k));
    let e = start_of_run(&front, k, front.len());
    let r = slice(&front, 0, e);
    assert(r@ =~= trimmed_back(front@, k));
    r
}

fn tail_chars(v: &Vec<char>, from: usize) -> (r: Vec<char>)
    requires
        from <= v@.len(),
    ensures
        r@ == v@.skip(from as int),
{
    let mut out: Vec<char> = Vec::new();
    let mut i: usize = from;
    while i < v.len()
        invariant
            from <= i <= v@.len(),
            out@ =~= v@.subrange(from as int, i as int),
        decreases v@.len() - i,
    {
        out.push(v[i]);
        i = i + 1;
    }
    assert(out@ =~= v@.skip(from as int));
    out
}

pub fn trim(s: &str) -> (r: String)
    ensures
        r@ == trimmed(s@),
{
    trim_of(s, Class::Space)
}

// ---------------------------------------------------------------------
// Splitting

/// The pieces of `s`, from `i` on, between the characters outside the class.
pub open spec fn pieces_from(s: Text, k: Class, i: int) -> Seq<Text>
    decreases s.len() - i,
    when 0 <= i <= s.len()
    via pieces_from_shrinks
{
    let e = run_end(s, k, i);
    if e < s.len() {
        seq![s.subrange(i, e)] + pieces_from(s, k, e + 1)
    } else {
        seq![s.subrange(i, e)]
    }
}

#[via_fn]
proof fn pieces_from_shrinks(s: Text, k: Class, i: int) {
    run_end_is_maximal(s, k, i);
}

/// The pieces of `s` between the characters outside the class `k`.
pub open spec fn pieces(s: Text, k: Class) -> Seq<Text> {
    pieces_from(s, k, 0)
}

/// The last piece is the run at the end.
pub proof fn last_piece(s: Text, k: Class, i: int)
    requires
        0 <= i <= s.len(),
    ensures
        pieces_from(s, k, i).len() > 0,
        pieces_from(s, k, i).last() == s.skip(
            if run_start(s, k, s.len() as int) < i {
                i
            } else {
                run_start(s, k, s.len() as int)
            },
        ),
    decreases s.len() - i,
{
    run_end_is_maximal(s, k, i);
    run_start_is_maximal(s, k, s.len() as int);
    let e = run_end(s, k, i);
    let r = run_start(s, k, s.len() as int);
    let back = s.subrange(r, s.len() as int);
    if e < s.len() {
        last_piece(s, k, e + 1);
        if r <= e {
            assert(back[e - r] == s[e]);
        }
    } else {
        let front = s.subrange(i, e);
        if r > i {
            assert(front[r - 1 - i] == s[r - 1]);
        }
        assert(s.subrange(i, e) =~= s.skip(i));
    }
}

pub fn split(s: &str, k: Class) -> (r: Vec<String>)
    ensures
        texts(r@) == pieces(s@, k),
{
    let v = chars_of(s);
    split_chars(&v, k)
}

pub fn split_chars(v: &Vec<char>, k: Class) -> (r: Vec<String>)
    ensures
        texts(r@) == pieces(v@, k),
{
    let mut out: Vec<String> = Vec::new();
    let mut i: usize = 0;
    loop
        invariant
            i <= v@.len(),
            texts(out@) + pieces_from(v@, k, i as int) == pieces(v@, k),
        decreases v@.len() - i,
    {
        let e = end_of_run(v, k, i);
        let piece = slice(v, i, e);
        let ghost before = out@;
        out.push(piece);
        assert(texts(out@) =~= texts(before).push(piece@));
        if e < v.len() {
            assert(texts(before) + pieces_from(v@, k, i as int) =~= texts(out@) + pieces_from(
                v@,
                k,
                e + 1,
            ));
            i = e + 1;
        } else {
            assert(texts(before) + pieces_from(v@, k, i as int) =~= texts(out@));
            return out;
        }
    }
}

/// A piece that ended with a line feed, without the carriage return before it.
pub open spec fn without_return(s: Text) -> Text {
    if s.len() > 0 && s.last() == '\r' {
        s.drop_last()
    } else {
        s
    }
}

/// The lines of `s`: each ends with a line feed, or a carriage return and a
/// line feed, which are not part of it; the last may go without.
pub open spec fn lines_of(s: Text) -> Seq<Text> {
    let parts = pieces(s, Class::Not('\n'));
    let whole = parts.drop_last().map_values(|p: Text| without_return(p));
    if parts.last().len() == 0 {
        whole
    } else {
        whole.push(parts.last())
    }
}

proof fn lemma_pieces_nonempty(s: Text, k: Class, i: int)
    requires
        0 <= i <= s.len(),
    ensures
        pieces_from(s, k, i).len() > 0,
{
    run_end_is_maximal(s, k, i);
}

pub fn lines(s: &str) -> (r: Vec<String>)
    ensures
        texts(r@) == lines_of(s@),
{
    let parts = split(s, Class::Not('\n'));
    let ghost ps = texts(parts@);
    proof {
        lemma_pieces_nonempty(s@, Class::Not('\n'), 0);
        assert(parts@.len() == ps.len());
    }
    let last: usize = parts.len() - 1;
    let mut out: Vec<String> = Vec::new();
    let mut i: usize = 0;
    while i < last
        invariant
            i <= last,
            last == parts@.len() - 1,
            ps == texts(parts@),
            texts(out@) =~= ps.take(i as int).map_values(|p: Text| without_return(p)),
        decreases last - i,
    {
        let v = chars_of(parts[i].as_str());
        assert(v@ == ps[i as int]);
        let ghost before = out@;
        if v.len() > 0 && v[v.len() - 1] == '\r' {
            let line = slice(&v, 0, v.len() - 1);
            assert(line@ =~= without_return(v@));
            out.push(line);
        } else {
            let line = slice(&v, 0, v.len());
            assert(line@ =~= without_return(v@));
            out.push(line);
        }
        assert(texts(out@) =~= texts(before).push(without_return(ps[i as int])));
        i = i + 1;
    }
    assert(ps.take(last as int) =~= ps.drop_last());
    assert(ps.last() == parts@[last as int]@);
    if !parts[last].as_str().is_empty() {
        let ghost before = out@;
        out.push(parts[last].clone());
        assert(texts(out@) =~= texts(before).push(ps.last()));
    }
    out
}

// ---------------------------------------------------------------------
// Building

pub fn cat2(a: &str, b: &str) -> (r: String)
    ensures
        r@ == a@ + b@,
{
    let mut out = a.to_owned();
    out.append(b);
    out
}

pub fn cat3(a: &str, b: &str, c: &str) -> (r: String)
    ensures
        r@ == a@ + b@ + c@,
{
    let mut out = cat2(a, b);
    out.append(c);
    out
}

pub fn cat4(a: &str, b: &str, c: &str, d: &str) -> (r: String)
    ensures
        r@ == a@ + b@ + c@ + d@,
{
    let mut out = cat3(a, b, c);
    out.append(d);
    out
}

pub fn cat5(a: &str, b: &str, c: &str, d: &str, e: &str) -> (r: String)
    ensures
        r@ == a@ + b@ + c@ + d@ + e@,
{
    let mut out = cat4(a, b, c, d);
    out.append(e);
    out
}

pub fn cat6(a: &str, b: &str, c: &str, d: &str, e: &str, f: &str) -> (r: String)
    ensures
        r@ == a@ + b@ + c@ + d@ + e@ + f@,
{
    let mut out = cat5(a, b, c, d, e);
    out.append(f);
    out
}

pub fn cat7(a: &str, b: &str, c: &str, d: &str, e: &str, f: &str, g: &str) -> (r: String)
    ensures
        r@ == a@ + b@ + c@ + d@ + e@ + f@ + g@,
{
    let mut out = cat6(a, b, c, d, e, f);
    out.append(g);
    out
}

/// The parts one after the other, with `sep` between them.
pub open spec fn joined(parts: Seq<Text>, sep: Text) -> Text
    decreases parts.len(),
{
    if parts.len() == 0 {
        Seq::empty()
    } else if parts.len() == 1 {
        parts[0]
    } else {
        joined(parts.drop_last(), sep) + sep + parts.last()
    }
}

pub fn join(parts: &Vec<String>, sep: &str) -> (r: String)
    ensures
        r@ == joined(texts(parts@), sep@),
{
    let mut out = String::new();
    let mut i: usize = 0;
    let ghost ps = texts(parts@);
    while i < parts.len()
        invariant
            i <= parts@.len(),
            ps == texts(parts@),
            out@ == joined(ps.take(i as int), sep@),
        decreases parts@.len() - i,
    {
        assert(ps.take(i + 1).drop_last() =~= ps.take(i as int));
        assert(ps.take(i + 1).last() == parts@[i as int]@);
        if i > 0 {
            out.append(sep);
        } else {
            assert(out@ + parts@[i as int]@ =~= parts@[i as int]@);
        }
        out.append(parts[i].as_str());
        i = i + 1;
    }
    assert(ps.take(i as int) =~= ps);
    out
}

/// `n` times the character `c`.
pub open spec fn repeated(c: char, n: nat) -> Text {
    Seq::new(n, |i: int| c)
}

/// `s`, followed by spaces up to `width` characters.
pub open spec fn padded(s: Text, width: nat) -> Text {
    if s.len() >= width {
        s
    } else {
        s + repeated(' ', (width - s.len()) as nat)
    }
}

pub fn repeat(c: char, n: usize) -> (r: String)
    ensures
        r@ == repeated(c, n as nat),
{
    let mut out = String::new();
    let mut i: usize = 0;
    while i < n
        invariant
            i <= n,
            out@ =~= repeated(c, i as nat),
        decreases n - i,
    {
        out.push(c);
        i = i + 1;
    }
    out
}

pub fn pad(s: &str, width: usize) -> (r: String)
    ensures
        r@ == padded(s@, width as nat),
{
    let n = s.unicode_len();
    if n >= width {
        s.to_owned()
    } else {
        let fill = repeat(' ', width - n);
        cat2(s, fill.as_str())
    }
}

// ---------------------------------------------------------------------
// Lines written and read back

/// Every line followed by a line feed.
pub open spec fn terminated(lines: Seq<Text>) -> Text
    decreases lines.len(),
{
    if lines.len() == 0 {
        Seq::empty()
    } else {
        terminated(lines.drop_last()) + lines.last() + seq!['\n']
    }
}

/// Does no line hold a line feed?
pub open spec fn single_lines(lines: Seq<Text>) -> bool {
    forall|i: int| 0 <= i < lines.len() ==> all_in(#[trigger] lines[i], Class::Not('\n'))
}

/// Lines joined by line feeds, and a last one, are the terminated lines.
pub proof fn joined_lines(lines: Seq<Text>)
    requires
        lines.len() > 0,
    ensures
        joined(lines, "\n"@) + seq!['\n'] == terminated(lines),
    decreases lines.len(),
{
    reveal_strlit("\n");
    assert("\n"@ =~= seq!['\n']);
    if lines.len() == 1 {
        assert(terminated(lines.drop_last()) =~= Seq::<char>::empty());
        assert(joined(lines, "\n"@) + seq!['\n'] =~= terminated(lines));
    } else {
        joined_lines(lines.drop_last());
    }
}

proof fn run_end_shifts(p: Text, t: Text, k: Class, i: int)
    requires
        0 <= i <= t.len(),
    ensures
        run_end(p + t, k, p.len() + i) == p.len() + run_end(t, k, i),
    decreases t.len() - i,
{
    let s = p + t;
    if i < t.len() {
        assert(s[p.len() + i] == t[i]);
        if in_class(t[i], k) {
            run_end_shifts(p, t, k, i + 1);
        }
    }
}

proof fn pieces_shift(p: Text, t: Text, k: Class, i: int)
    requires
        0 <= i <= t.len(),
    ensures
        pieces_from(p + t, k, p.len() + i) == pieces_from(t, k, i),
    decreases t.len() - i,
{
    run_end_shifts(p, t, k, i);
    run_end_is_maximal(t, k, i);
    let e = run_end(t, k, i);
    assert((p + t).subrange(p.len() + i, p.len() + e) =~= t.subrange(i, e));
    if e < t.len() {
        pieces_shift(p, t, k, e + 1);
    }
}

/// The pieces of two texts with a separator between them are the pieces of
/// each.
pub proof fn pieces_joined(s: Text, c: char, t: Text, k: Class)
    requires
        !in_class(c, k),
    ensures
        pieces(s + seq![c] + t, k) == pieces(s, k) + pieces(t, k),
{
    lemma_pieces_joined(s, c, t, k, 0);
}

proof fn lemma_pieces_joined(s: Text, c: char, t: Text, k: Class, i: int)
    requires
        !in_class(c, k),
        0 <= i <= s.len(),
    ensures
        pieces_from(s + seq![c] + t, k, i) == pieces_from(s, k, i) + pieces(t, k),
    decreases s.len() - i,
{
    let w = s + seq![c] + t;
    run_end_is_maximal(s, k, i);
    let e = run_end(s, k, i);
    assert(w.subrange(i, e) =~= s.subrange(i, e));
    if e < s.len() {
        assert(w[e] == s[e]);
        run_end_is(w, k, i, e);
        lemma_pieces_joined(s, c, t, k, e + 1);
        assert(pieces_from(w, k, i) =~= pieces_from(s, k, i) + pieces(t, k));
    } else {
        assert(w[e] == c);
        run_end_is(w, k, i, e);
        pieces_shift(s + seq![c], t, k, 0);
        assert(pieces_from(w, k, i) =~= pieces_from(s, k, i) + pieces(t, k));
    }
}

/// The pieces of a text without a character of the class are empty.
pub proof fn pieces_of_nothing(s: Text, k: Class, i: int)
    requires
        0 <= i <= s.len(),
        forall|j: int| 0 <= j < s.len() ==> !in_class(#[trigger] s[j], k),
    ensures
        forall|j: int|
            0 <= j < pieces_from(s, k, i).len() ==> (#[trigger] pieces_from(s, k, i)[j]).len() == 0,
    decreases s.len() - i,
{
    if i < s.len() {
        assert(!in_class(s[i], k));
        pieces_of_nothing(s, k, i + 1);
        let rest = pieces_from(s, k, i + 1);
        let all = pieces_from(s, k, i);
        assert(all =~= seq![s.subrange(i, i)] + rest);
        assert forall|j: int| 0 <= j < all.len() implies (#[trigger] all[j]).len() == 0 by {
            if j > 0 {
                assert(all[j] == rest[j - 1]);
            }
        }
    }
}

/// A text of which trimming leaves nothing is all of the class.
pub proof fn trimmed_to_nothing(s: Text, k: Class)
    requires
        trimmed_of(s, k).len() == 0,
    ensures
        all_in(s, k),
{
    run_end_is_maximal(s, k, 0);
    let e = run_end(s, k, 0);
    let front = s.skip(e);
    run_start_is_maximal(front, k, front.len() as int);
    let b = run_start(front, k, front.len() as int);
    if e < s.len() {
        assert(front[0] == s[e]);
        assert(b == 0);
        assert(front.subrange(0, front.len() as int)[0] == front[0]);
    } else {
        assert(s.subrange(0, e) =~= s);
    }
}

/// The pieces of a text that starts with a piece and a separator.
pub proof fn pieces_after(a: Text, c: char, t: Text, k: Class)
    requires
        all_in(a, k),
        !in_class(c, k),
    ensures
        pieces(a + seq![c] + t, k) == seq![a] + pieces(t, k),
{
    let s = a + seq![c] + t;
    assert(s.subrange(0, a.len() as int) =~= a);
    assert(s[a.len() as int] == c);
    run_end_is(s, k, 0, a.len() as int);
    pieces_shift(a + seq![c], t, k, 0);
}

/// A single piece without separators.
pub proof fn pieces_single(a: Text, k: Class)
    requires
        all_in(a, k),
    ensures
        pieces(a, k) == seq![a],
{
    assert(a.subrange(0, a.len() as int) =~= a);
    run_end_is(a, k, 0, a.len() as int);
}

proof fn pieces_of_terminated(lines: Seq<Text>, rest: Text)
    requires
        single_lines(lines),
    ensures
        pieces(terminated(lines) + rest, Class::Not('\n')) == lines + pieces(
            rest,
            Class::Not('\n'),
        ),
    decreases lines.len(),
{
    let k = Class::Not('\n');
    if lines.len() == 0 {
        assert(terminated(lines) + rest =~= rest);
        assert(lines + pieces(rest, k) =~= pieces(rest, k));
    } else {
        let l = lines.last();
        let tail = l + seq!['\n'] + rest;
        pieces_of_terminated(lines.drop_last(), tail);
        pieces_after(l, '\n', rest, k);
        assert(terminated(lines) + rest =~= terminated(lines.drop_last()) + tail);
        assert(lines.drop_last() + (seq![l] + pieces(rest, k)) =~= lines + pieces(rest, k));
    }
}

/// A text put in front of others that are joined.
proof fn lemma_joined_front(a: Text, rest: Seq<Text>, sep: Text)
    requires
        rest.len() > 0,
    ensures
        joined(seq![a] + rest, sep) == a + sep + joined(rest, sep),
    decreases rest.len(),
{
    let all = seq![a] + rest;
    assert(all.drop_last() =~= seq![a] + rest.drop_last());
    assert(all.last() == rest.last());
    if rest.len() == 1 {
        assert(all.drop_last() =~= seq![a]);
        assert(joined(all.drop_last(), sep) =~= a);
    } else {
        lemma_joined_front(a, rest.drop_last(), sep);
    }
    assert(joined(all, sep) =~= a + sep + joined(rest, sep));
}

proof fn lemma_parts_joined(s: Text, i: int)
    requires
        0 <= i <= s.len(),
    ensures
        joined(pieces_from(s, Class::Not('\n'), i), "\n"@) == s.skip(i),
    decreases s.len() - i,
{
    let k = Class::Not('\n');
    reveal_strlit("\n");
    run_end_is_maximal(s, k, i);
    let e = run_end(s, k, i);
    if e < s.len() {
        let rest = pieces_from(s, k, e + 1);
        lemma_pieces_nonempty(s, k, e + 1);
        lemma_parts_joined(s, e + 1);
        lemma_joined_front(s.subrange(i, e), rest, "\n"@);
        assert(s[e] == '\n');
        assert("\n"@ =~= seq!['\n']);
        assert(s.skip(i) =~= s.subrange(i, e) + "\n"@ + s.skip(e + 1));
    } else {
        assert(joined(seq![s.subrange(i, e)], "\n"@) =~= s.skip(i));
    }
}

/// The pieces of a text between its line feeds, joined by line feeds, are the
/// text.
pub proof fn parts_make_the_text(s: Text)
    ensures
        joined(pieces(s, Class::Not('\n')), "\n"@) == s,
{
    lemma_parts_joined(s, 0);
    assert(s.skip(0) =~= s);
}

/// Single lines joined by line feeds are the pieces of what they make.
pub proof fn joined_lines_are_parts(lines: Seq<Text>)
    requires
        lines.len() > 0,
        single_lines(lines),
    ensures
        pieces(joined(lines, "\n"@), Class::Not('\n')) == lines,
{
    let k = Class::Not('\n');
    let front = lines.drop_last();
    let last = lines.last();
    reveal_strlit("\n");
    assert("\n"@ =~= seq!['\n']);
    assert(all_in(lines[lines.len() - 1], k));
    pieces_of_terminated(front, last);
    pieces_single(last, k);
    if front.len() > 0 {
        joined_lines(front);
        assert(joined(lines, "\n"@) =~= terminated(front) + last);
    } else {
        assert(joined(lines, "\n"@) =~= terminated(front) + last);
    }
    assert(front + seq![last] =~= lines);
}

/// Terminated lines read back as the lines, each without a carriage return
/// at its end.
pub proof fn terminated_lines_read_back(lines: Seq<Text>)
    requires
        single_lines(lines),
    ensures
        lines_of(terminated(lines)) == lines.map_values(|l: Text| without_return(l)),
{
    let k = Class::Not('\n');
    let nothing = Seq::<char>::empty();
    pieces_of_terminated(lines, nothing);
    pieces_single(nothing, k);
    assert(terminated(lines) + nothing =~= terminated(lines));
    let parts = pieces(terminated(lines), k);
    assert(parts.drop_last() =~= lines);
    assert(parts.last() == nothing);
}

/// A line written after whole lines, with more text after it, is read as one
/// line between theirs.
pub proof fn a_line_in_between_is_read(earlier: Text, line: Text, later: Text)
    requires
        earlier.len() == 0 || earlier.last() == '\n',
        all_in(line, Class::Not('\n')),
    ensures
        lines_of(earlier + line + seq!['\n'] + later) == lines_of(earlier) + seq![
            without_return(line),
        ] + lines_of(later),
{
    let k = Class::Not('\n');
    let nothing = Seq::<char>::empty();
    let wr = |p: Text| without_return(p);
    let tail = line + seq!['\n'] + later;
    let whole = earlier + line + seq!['\n'] + later;
    let q = pieces(later, k);
    lemma_pieces_nonempty(later, k, 0);
    pieces_after(line, '\n', later, k);
    pieces_single(nothing, k);
    let p = if earlier.len() == 0 {
        Seq::<Text>::empty()
    } else {
        pieces(earlier.drop_last(), k)
    };
    if earlier.len() == 0 {
        assert(earlier =~= nothing);
        assert(whole =~= tail);
        assert(pieces(earlier, k).drop_last() =~= p);
    } else {
        let front = earlier.drop_last();
        assert(earlier =~= front + seq!['\n'] + nothing);
        assert(whole =~= front + seq!['\n'] + tail);
        pieces_joined(front, '\n', nothing, k);
        pieces_joined(front, '\n', tail, k);
        assert((p + seq![nothing]).drop_last() =~= p);
    }
    let parts = pieces(whole, k);
    assert(parts =~= p + seq![line] + q);
    assert(parts.last() == q.last());
    assert(pieces(earlier, k).last() =~= nothing);
    assert(lines_of(earlier) =~= p.map_values(wr));
    assert(parts.drop_last() =~= p + seq![line] + q.drop_last());
    assert(parts.drop_last().map_values(wr) =~= p.map_values(wr) + seq![without_return(line)]
        + q.drop_last().map_values(wr));
    assert(lines_of(whole) =~= p.map_values(wr) + seq![without_return(line)] + lines_of(later));
}

/// Every piece is all of the class.
pub proof fn pieces_are_in_class(s: Text, k: Class)
    ensures
        pieces(s, k).len() > 0,
        forall|j: int| 0 <= j < pieces(s, k).len() ==> all_in(#[trigger] pieces(s, k)[j], k),
{
    lemma_pieces_in(s, k, 0);
}

/// The lines of a text hold no line feed.
pub proof fn lines_are_single(s: Text)
    ensures
        single_lines(lines_of(s)),
{
    let k = Class::Not('\n');
    lemma_pieces_in(s, k, 0);
    let parts = pieces(s, k);
    let ls = lines_of(s);
    assert forall|i: int| 0 <= i < ls.len() implies all_in(#[trigger] ls[i], k) by {
        if i < parts.len() - 1 {
            assert(all_in(parts[i], k));
            assert(ls[i] == without_return(parts[i]));
        } else {
            assert(ls[i] == parts.last());
            assert(all_in(parts[parts.len() - 1], k));
        }
    }
}

proof fn lemma_pieces_in(s: Text, k: Class, i: int)
    requires
        0 <= i <= s.len(),
    ensures
        pieces_from(s, k, i).len() > 0,
        forall|j: int| 0 <= j < pieces_from(s, k, i).len() ==> all_in(#[trigger] pieces_from(s, k, i)[j], k),
    decreases s.len() - i,
{
    run_end_is_maximal(s, k, i);
    let e = run_end(s, k, i);
    let ps = pieces_from(s, k, i);
    if e < s.len() {
        lemma_pieces_in(s, k, e + 1);
        assert forall|j: int| 0 <= j < ps.len() implies all_in(#[trigger] ps[j], k) by {
            if j > 0 {
                assert(ps[j] == pieces_from(s, k, e + 1)[j - 1]);
            }
        }
    }
}

// ---------------------------------------------------------------------
// Letter case

/// The text in ASCII lower case. Among the words looked for in file names
/// no letter has a non-ASCII upper case form, so a search in this form
/// finds what one in Unicode lower case would.
pub fn lowercase(s: &str) -> (r: String)
    ensures
        r@ == lowered(s@),
{
    let v = chars_of(s);
    let mut out = String::new();
    let mut i: usize = 0;
    while i < v.len()
        invariant
            i <= v@.len(),
            out@ =~= lowered(v@.take(i as int)),
        decreases v@.len() - i,
    {
        out.push(lower_char(v[i]));
        i = i + 1;
    }
    assert(v@.take(i as int) =~= v@);
    out
}

// ---------------------------------------------------------------------
// Dictionary order

/// Does `a` stand before `b` in the order of their characters, or are they
/// the same from index `i` on?
pub open spec fn not_above(a: Text, b: Text, i: int) -> bool
    decreases a.len() - i,
{
    if !(0 <= i < a.len()) {
        true
    } else if i >= b.len() {
        false
    } else if a[i] != b[i] {
        a[i] < b[i]
    } else {
        not_above(a, b, i + 1)
    }
}

/// Dictionary order.
pub open spec fn in_order(a: Text, b: Text) -> bool {
    not_above(a, b, 0)
}

/// Are the texts in dictionary order?
pub open spec fn all_in_order(v: Seq<Text>) -> bool {
    forall|i: int, j: int| 0 <= i <= j < v.len() ==> in_order(#[trigger] v[i], #[trigger] v[j])
}

proof fn lemma_order_total(a: Text, b: Text, i: int)
    requires
        0 <= i,
    ensures
        not_above(a, b, i) || not_above(b, a, i),
    decreases a.len() - i,
{
    if i < a.len() && i < b.len() && a[i] == b[i] {
        lemma_order_total(a, b, i + 1);
    }
}

proof fn lemma_order_trans(a: Text, b: Text, c: Text, i: int)
    requires
        0 <= i,
        not_above(a, b, i),
        not_above(b, c, i),
    ensures
        not_above(a, c, i),
    decreases a.len() - i,
{
    if i < a.len() && i < b.len() && i < c.len() && a[i] == b[i] && b[i] == c[i] {
        lemma_order_trans(a, b, c, i + 1);
    }
}

proof fn lemma_order_antisymmetric(a: Text, b: Text, i: int)
    requires
        0 <= i <= a.len(),
        i <= b.len(),
        a.take(i) == b.take(i),
        not_above(a, b, i),
        not_above(b, a, i),
    ensures
        a == b,
    decreases a.len() - i,
{
    if i < a.len() && i < b.len() {
        assert(a.take(i + 1) =~= a.take(i).push(a[i]));
        assert(b.take(i + 1) =~= b.take(i).push(b[i]));
        lemma_order_antisymmetric(a, b, i + 1);
    } else {
        assert(a.take(i) =~= a);
        assert(b.take(i) =~= b);
    }
}

/// Texts in order both ways are the same.
pub proof fn order_is_strict(a: Text, b: Text)
    requires
        in_order(a, b),
        in_order(b, a),
    ensures
        a == b,
{
    assert(a.take(0) =~= b.take(0));
    lemma_order_antisymmetric(a, b, 0);
}

/// Dictionary order is total and transitive.
pub proof fn order_is_total(a: Text, b: Text, c: Text)
    ensures
        in_order(a, a),
        in_order(a, b) || in_order(b, a),
        in_order(a, b) && in_order(b, c) ==> in_order(a, c),
{
    lemma_order_total(a, a, 0);
    lemma_order_total(a, b, 0);
    if in_order(a, b) && in_order(b, c) {
        lemma_order_trans(a, b, c, 0);
    }
}

pub fn is_in_order(a: &str, b: &str) -> (r: bool)
    ensures
        r == in_order(a@, b@),
{
    let x = chars_of(a);
    let y = chars_of(b);
    let mut i: usize = 0;
    while i < x.len()
        invariant
            i <= x@.len(),
            x@ == a@,
            y@ == b@,
            in_order(x@, y@) == not_above(x@, y@, i as int),
        decreases x@.len() - i,
    {
        if i >= y.len() {
            return false;
        }
        if x[i] != y[i] {
            return x[i] < y[i];
        }
        i = i + 1;
    }
    true
}

/// The strings in dictionary order.
pub fn sort(v: Vec<String>) -> (r: Vec<String>)
    ensures
        all_in_order(texts(r@)),
        texts(r@).to_multiset() == texts(v@).to_multiset(),
{
    let mut out: Vec<String> = Vec::new();
    let mut left = v;
    let ghost all = texts(v@).to_multiset();
    proof {
        broadcast use vstd::seq_lib::group_to_multiset_ensures;

        assert(texts(out@) =~= Seq::<Text>::empty());
        assert(all =~= texts(out@).to_multiset().add(texts(left@).to_multiset()));
    }
    while left.len() > 0
        invariant
            all_in_order(texts(out@)),
            all == texts(out@).to_multiset().add(texts(left@).to_multiset()),
        decreases left@.len(),
    {
        let ghost before = texts(left@);
        let item = match left.pop() {
            Some(item) => item,
            None => {
                return out;
            },
        };
        let ghost o = texts(out@);
        insert_in_order(&mut out, item);
        proof {
            broadcast use vstd::seq_lib::group_to_multiset_ensures;

            assert(before =~= texts(left@).push(item@));
            assert(all =~= texts(out@).to_multiset().add(texts(left@).to_multiset()));
        }
    }
    proof {
        broadcast use vstd::seq_lib::group_to_multiset_ensures;

        assert(texts(left@) =~= Seq::<Text>::empty());
        assert(all =~= texts(out@).to_multiset());
    }
    out
}

fn insert_in_order(v: &mut Vec<String>, item: String)
    requires
        all_in_order(texts(old(v)@)),
    ensures
        all_in_order(texts(final(v)@)),
        texts(final(v)@).to_multiset() =~= texts(old(v)@).to_multiset().insert(item@),
{
    let ghost o = texts(v@);
    let mut i: usize = v.len();
    while i > 0 && !is_in_order(v[i - 1].as_str(), item.as_str())
        invariant
            i <= v@.len(),
            v@ == old(v)@,
            o == texts(v@),
            all_in_order(o),
            forall|k: int| i <= k < o.len() ==> !in_order(#[trigger] o[k], item@),
        decreases i,
    {
        assert(o[i - 1] == v@[i - 1]@);
        i = i - 1;
    }
    let ghost x = item@;
    if i > 0 {
        assert(o[i - 1] == v@[i - 1]@);
    }
    v.insert(i, item);
    proof {
        broadcast use vstd::seq_lib::group_to_multiset_ensures;

        let t = texts(v@);
        assert(t =~= o.insert(i as int, x));
        assert forall|a: int, b: int| 0 <= a <= b < t.len() implies in_order(
            #[trigger] t[a],
            #[trigger] t[b],
        ) by {
            order_is_total(x, x, x);
            if a == i && b > i {
                assert(t[b] == o[b - 1]);
                order_is_total(o[b - 1], x, x);
            } else if a < i && b == i {
                assert(t[a] == o[a]);
                assert(in_order(o[a], o[i - 1]));
                order_is_total(o[a], o[i - 1], x);
            } else if a < i && b > i {
                assert(t[a] == o[a] && t[b] == o[b - 1]);
            } else if a > i {
                assert(t[a] == o[a - 1] && t[b] == o[b - 1]);
            } else if b < i {
                assert(t[a] == o[a] && t[b] == o[b]);
            }
        }
        assert(t.remove(i as int) =~= o);
        assert(t[i as int] == x);
        assert(t.to_multiset().contains(x));
    }
}

} // verus!
