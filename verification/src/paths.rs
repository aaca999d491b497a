//! Unix file paths as texts: joining, taking apart, comparing by component.

use vstd::prelude::*;
use crate::text;
use crate::text::{chars_of, same, slice, Class, Text};

verus! {

/// Does the path start at the root?
pub open spec fn rooted(s: Text) -> bool {
    s.len() > 0 && s[0] == '/'
}

/// Does the path start with a `.` component?
pub open spec fn from_here(s: Text) -> bool {
    s.len() > 0 && s[0] == '.' && (s.len() == 1 || s[1] == '/')
}

/// Where the components after the root, or after a leading `.`, start.
pub open spec fn body_start(s: Text) -> int {
    if rooted(s) || from_here(s) {
        1
    } else {
        0
    }
}

/// A piece between slashes that counts as a component: not empty and not `.`.
pub open spec fn counts(piece: Text) -> bool {
    piece.len() > 0 && piece != seq!['.']
}

/// The components of a path: the root, or a leading `.`, then the pieces
/// between slashes; empty pieces and later `.` pieces do not count.
pub open spec fn components(s: Text) -> Seq<Text> {
    let rest = text::pieces(s.skip(body_start(s)), Class::Not('/')).filter(
        |piece: Text| counts(piece),
    );
    if body_start(s) == 1 {
        seq![s.take(1)] + rest
    } else {
        rest
    }
}

/// Do two texts name the same path, component by component?
pub open spec fn same_path(a: Text, b: Text) -> bool {
    components(a) == components(b)
}

/// The last component, where it names a file or folder.
pub open spec fn file_name(s: Text) -> Option<Text> {
    let c = components(s);
    if c.len() == 0 || c.last() == seq!['/'] || c.last() == seq!['.'] || c.last() == seq!['.', '.'] {
        None
    } else {
        Some(c.last())
    }
}

/// The last component's name, empty where there is none.
pub open spec fn name_of(s: Text) -> Text {
    match file_name(s) {
        Some(n) => n,
        None => Seq::empty(),
    }
}

/// The path `rest` below `base`; an absolute `rest` stands for itself.
pub open spec fn below(base: Text, rest: Text) -> Text {
    if rooted(rest) {
        rest
    } else if base.len() == 0 || base.last() == '/' {
        base + rest
    } else {
        base.push('/') + rest
    }
}

/// Where the last piece of the path starts.
pub open spec fn piece_start(s: Text) -> int {
    let k = text::run_start(s, Class::Not('/'), s.len() as int);
    if k < body_start(s) {
        body_start(s)
    } else {
        k
    }
}

/// The path without its last piece and the slash before it.
pub open spec fn without_piece(s: Text) -> Text {
    let k = piece_start(s);
    if k > body_start(s) {
        s.take(k - 1)
    } else {
        s.take(k)
    }
}

/// The path without trailing pieces that do not count.
pub open spec fn tidy(s: Text) -> Text
    decreases s.len(),
    when true
    via tidy_shrinks
{
    if s.len() > body_start(s) && !counts(s.skip(piece_start(s))) {
        tidy(without_piece(s))
    } else {
        s
    }
}

#[via_fn]
proof fn tidy_shrinks(s: Text) {
    lemma_piece_start(s);
}

/// The path without its last component; none for the root and for nothing.
pub open spec fn parent(s: Text) -> Option<Text> {
    let t = tidy(s);
    if t.len() > body_start(t) {
        Some(tidy(without_piece(t)))
    } else if from_here(t) {
        Some(Seq::empty())
    } else {
        None
    }
}

proof fn lemma_piece_start(s: Text)
    ensures
        s.len() >= body_start(s),
        body_start(s) <= piece_start(s) <= s.len(),
        piece_start(s) > body_start(s) ==> s[piece_start(s) - 1] == '/',
        s.len() > body_start(s) && piece_start(s) == s.len() ==> piece_start(s) > body_start(s),
        s.len() > body_start(s) ==> without_piece(s).len() < s.len(),
        text::all_in(s.skip(piece_start(s)), Class::Not('/')),
{
    text::run_start_is_maximal(s, Class::Not('/'), s.len() as int);
    let r = text::run_start(s, Class::Not('/'), s.len() as int);
    let whole = s.subrange(r, s.len() as int);
    let k = piece_start(s);
    let tail = s.skip(k);
    assert forall|i: int| 0 <= i < tail.len() implies text::in_class(
        #[trigger] tail[i],
        Class::Not('/'),
    ) by {
        assert(tail[i] == whole[i + k - r]);
    }
}

/// A name that can stand for one component of a path.
pub open spec fn plain_name(n: Text) -> bool {
    counts(n) && text::all_in(n, Class::Not('/'))
}

/// The parent of a name in a folder is that folder, tidied.
pub proof fn parent_of_below(base: Text, n: Text)
    requires
        plain_name(n),
    ensures
        tidy(below(base, n)) == below(base, n),
        parent(below(base, n)) == Some(tidy(base)),
{
    let s = below(base, n);
    assert(n[0] != '/') by {
        assert(text::in_class(n[0], Class::Not('/')));
    }
    let at = s.len() - n.len();
    assert(s.subrange(at, s.len() as int) =~= n);
    assert(s.skip(at) =~= n);
    text::run_start_is(s, Class::Not('/'), at, s.len() as int);
    if from_here(n) {
        if n.len() > 1 {
            assert(text::in_class(n[1], Class::Not('/')));
        }
        assert(n =~= seq!['.']);
    }
    assert(at >= body_start(s));
    assert(piece_start(s) == at);
    if base.len() == 0 {
        assert(without_piece(s) =~= base);
    } else if base.last() == '/' {
        if base.len() == 1 {
            assert(without_piece(s) =~= base);
        } else {
            text::run_start_is(base, Class::Not('/'), base.len() as int, base.len() as int);
            assert(base[0] == s[0] && base[1] == s[1]);
            assert(base.skip(piece_start(base)).len() == 0);
            assert(without_piece(s) =~= without_piece(base));
        }
    } else {
        assert(without_piece(s) =~= base);
    }
}

/// A single plain name put below a folder comes back as its file name.
pub proof fn file_name_of_below(base: Text, n: Text)
    requires
        plain_name(n),
        n != seq!['.', '.'],
    ensures
        file_name(below(base, n)) == Some(n),
{
    let s = below(base, n);
    assert(n[0] != '/') by {
        assert(text::in_class(n[0], Class::Not('/')));
    }
    if from_here(n) {
        if n.len() > 1 {
            assert(text::in_class(n[1], Class::Not('/')));
        }
        assert(n =~= seq!['.']);
    }
    let body = s.skip(body_start(s));
    let at = body.len() - n.len();
    assert(body.subrange(at, body.len() as int) =~= n);
    assert(body.skip(at) =~= n);
    text::run_start_is(body, Class::Not('/'), at, body.len() as int);
    text::last_piece(body, Class::Not('/'), 0);
    let ps = text::pieces(body, Class::Not('/'));
    reveal(Seq::filter);
    assert(ps.filter(|piece: Text| counts(piece)).last() == n);
    assert(components(s).last() == n);
    assert(n[0] != seq!['/'][0]);
}

/// A file name is one plain component.
pub proof fn file_names_are_plain(s: Text)
    ensures
        file_name(s) matches Some(n) ==> plain_name(n) && n != seq!['.', '.'],
{
    let body = s.skip(body_start(s));
    let ps = text::pieces(body, Class::Not('/'));
    let keep = |piece: Text| counts(piece);
    let rest = ps.filter(keep);
    match file_name(s) {
        Some(n) => {
            if rest.len() > 0 {
                text::pieces_are_in_class(body, Class::Not('/'));
                assert(rest.contains(n));
                lemma_filter_keeps(ps, keep, n);
                let i = choose|i: int| 0 <= i < ps.len() && ps[i] == n;
                assert(text::all_in(ps[i], Class::Not('/')));
            } else {
                assert(n =~= seq![n[0]]);
                assert(components(s) =~= seq![s.take(1)]);
            }
        },
        None => {},
    }
}

proof fn lemma_filter_keeps(ps: Seq<Text>, keep: spec_fn(Text) -> bool, n: Text)
    requires
        ps.filter(keep).contains(n),
    ensures
        ps.contains(n),
        keep(n),
    decreases ps.len(),
{
    reveal(Seq::filter);
    if ps.len() > 0 {
        let rest = ps.drop_last();
        let f = rest.filter(keep);
        if f.contains(n) {
            lemma_filter_keeps(rest, keep, n);
            let i = choose|i: int| 0 <= i < rest.len() && rest[i] == n;
            assert(ps[i] == n);
        } else {
            let g = ps.filter(keep);
            let k = choose|k: int| 0 <= k < g.len() && g[k] == n;
            if keep(ps.last()) {
                if k < f.len() {
                    assert(f[k] == n);
                }
                assert(ps[ps.len() - 1] == n);
            } else {
                assert(f[k] == n);
            }
        }
    }
}

// ---------------------------------------------------------------------

pub fn join(base: &str, rest: &str) -> (r: String)
    ensures
        r@ == below(base@, rest@),
{
    let b = chars_of(base);
    let v = chars_of(rest);
    if v.len() > 0 && v[0] == '/' {
        rest.to_owned()
    } else if b.len() == 0 || b[b.len() - 1] == '/' {
        text::cat2(base, rest)
    } else {
        let mut out = base.to_owned();
        out.push('/');
        out.append(rest);
        out
    }
}

fn head(v: &Vec<char>) -> (r: usize)
    ensures
        r == body_start(v@),
        r <= v@.len(),
{
    if v.len() > 0 && (v[0] == '/' || (v[0] == '.' && (v.len() == 1 || v[1] == '/'))) {
        1
    } else {
        0
    }
}

pub fn component_texts(s: &str) -> (r: Vec<String>)
    ensures
        text::texts(r@) == components(s@),
{
    let v = chars_of(s);
    let b = head(&v);
    let rest = slice(&v, b, v.len());
    assert(rest@ =~= s@.skip(body_start(s@)));
    let parts = text::split(rest.as_str(), Class::Not('/'));
    let ghost ps = text::texts(parts@);
    let ghost keep = |piece: Text| counts(piece);
    let mut out: Vec<String> = Vec::new();
    if b == 1 {
        let first = slice(&v, 0, 1);
        assert(first@ =~= s@.take(1));
        out.push(first);
    }
    let ghost start = text::texts(out@);
    let mut i: usize = 0;
    while i < parts.len()
        invariant
            i <= parts@.len(),
            ps == text::texts(parts@),
            keep == (|piece: Text| counts(piece)),
            text::texts(out@) == start + ps.take(i as int).filter(keep),
        decreases parts@.len() - i,
    {
        let ghost before = out@;
        let ghost piece = parts@[i as int]@;
        proof {
            reveal(Seq::filter);
            assert(ps.take(i + 1).drop_last() =~= ps.take(i as int));
            assert(ps.take(i + 1).last() == piece);
        }
        if !parts[i].as_str().is_empty() && !same(parts[i].as_str(), ".") {
            proof {
                reveal_strlit(".");
                assert("."@ =~= seq!['.']);
            }
            out.push(parts[i].clone());
            assert(text::texts(out@) =~= text::texts(before).push(piece));
            assert(text::texts(before).push(piece) =~= start + ps.take(i + 1).filter(keep));
        } else {
            proof {
                reveal_strlit(".");
                assert("."@ =~= seq!['.']);
            }
        }
        i = i + 1;
    }
    assert(ps.take(i as int) =~= ps);
    assert(text::texts(out@) =~= components(s@));
    out
}

/// Component-wise equality of two paths.
pub fn same_as(a: &str, b: &str) -> (r: bool)
    ensures
        r == same_path(a@, b@),
{
    let x = component_texts(a);
    let y = component_texts(b);
    text::same_lists(&x, &y)
}

pub fn file_name_of(s: &str) -> (r: Option<String>)
    ensures
        text::opt_text(r) == file_name(s@),
{
    let mut c = component_texts(s);
    let ghost cs = components(s@);
    proof {
        reveal_strlit("/");
        reveal_strlit(".");
        reveal_strlit("..");
        assert("/"@ =~= seq!['/']);
        assert("."@ =~= seq!['.']);
        assert(".."@ =~= seq!['.', '.']);
        assert(c@.len() == cs.len());
    }
    match c.pop() {
        None => None,
        Some(last) => {
            assert(last@ == cs.last());
            if same(last.as_str(), "/") || same(last.as_str(), ".") || same(last.as_str(), "..") {
                None
            } else {
                Some(last)
            }
        },
    }
}

pub fn name_text(s: &str) -> (r: String)
    ensures
        r@ == name_of(s@),
{
    match file_name_of(s) {
        Some(n) => n,
        None => String::new(),
    }
}

/// The characters of `without_piece`, as a length.
fn piece_cut(v: &Vec<char>) -> (r: (usize, usize))
    ensures
        r.0 == piece_start(v@),
        r.1 == without_piece(v@).len(),
        r.0 <= v@.len(),
        r.1 <= r.0,
        without_piece(v@) == v@.take(r.1 as int),
{
    proof {
        lemma_piece_start(v@);
    }
    let b = head(v);
    let k = text::start_of_run(v, Class::Not('/'), v.len());
    let start = if k < b {
        b
    } else {
        k
    };
    if start > b {
        (start, start - 1)
    } else {
        (start, start)
    }
}

fn tidied(v: Vec<char>) -> (r: Vec<char>)
    ensures
        r@ == tidy(v@),
{
    let mut t = v;
    loop
        invariant
            tidy(t@) == tidy(v@),
        decreases t@.len(),
    {
        let b = head(&t);
        if t.len() <= b {
            return t;
        }
        let (k, n) = piece_cut(&t);
        proof {
            lemma_piece_start(t@);
        }
        let ghost piece = t@.skip(k as int);
        if t.len() - k == 0 || (t.len() - k == 1 && t[k] == '.') {
            proof {
                if t@.len() - k == 1 {
                    assert(piece =~= seq!['.']);
                }
            }
            t.truncate(n);
        } else {
            proof {
                assert(piece.len() == t@.len() - k);
                if piece.len() == 1 {
                    assert(piece[0] == t@[k as int]);
                    assert(seq!['.'][0] == '.');
                }
            }
            return t;
        }
    }
}

pub fn parent_of(s: &str) -> (r: Option<String>)
    ensures
        text::opt_text(r) == parent(s@),
{
    let mut t = tidied(chars_of(s));
    let b = head(&t);
    if t.len() > b {
        let (k, n) = piece_cut(&t);
        t.truncate(n);
        let p = tidied(t);
        let out = slice(&p, 0, p.len());
        assert(out@ =~= p@);
        Some(out)
    } else if t.len() > 0 && t[0] == '.' {
        let out = String::new();
        assert(out@ =~= Seq::<char>::empty());
        Some(out)
    } else {
        None
    }
}

/// A name without its extension: up to its last dot, where that is not its
/// first character.
pub open spec fn stem(name: Text) -> Text {
    let d = text::run_start(name, Class::Not('.'), name.len() as int);
    if d > 1 {
        name.take(d - 1)
    } else {
        name
    }
}

/// The path with the extension of its file name replaced by `ext`.
pub open spec fn with_ext(s: Text, ext: Text) -> Text {
    if file_name(s) is None {
        s
    } else {
        let t = tidy(s);
        let k = piece_start(t);
        t.take(k) + stem(t.skip(k)) + "."@ + ext
    }
}

pub fn with_extension(s: &str, ext: &str) -> (r: String)
    ensures
        r@ == with_ext(s@, ext@),
{
    match file_name_of(s) {
        None => s.to_owned(),
        Some(_) => {
            let t = tidied(chars_of(s));
            let (k, n) = piece_cut(&t);
            let folder = slice(&t, 0, k);
            assert(folder@ =~= t@.take(k as int));
            let name = slice(&t, k, t.len());
            assert(name@ =~= t@.skip(k as int));
            let v = chars_of(name.as_str());
            let d = text::start_of_run(&v, Class::Not('.'), v.len());
            if d > 1 {
                let bare = slice(&v, 0, d - 1);
                assert(bare@ =~= stem(name@));
                text::cat4(folder.as_str(), bare.as_str(), ".", ext)
            } else {
                text::cat4(folder.as_str(), name.as_str(), ".", ext)
            }
        },
    }
}

// ---------------------------------------------------------------------
// The order of paths

/// The root, `.` and `..` stand before names.
pub open spec fn rank(part: Text) -> int {
    if part == seq!['/'] {
        0
    } else if part == seq!['.'] {
        1
    } else if part == seq!['.', '.'] {
        2
    } else {
        3
    }
}

/// Does a component stand before another, or is it the same?
pub open spec fn part_order(a: Text, b: Text) -> bool {
    rank(a) < rank(b) || (rank(a) == rank(b) && text::in_order(a, b))
}

/// Do the components from index `i` on stand in order?
pub open spec fn parts_order(a: Seq<Text>, b: Seq<Text>, i: int) -> bool
    decreases a.len() - i,
{
    if !(0 <= i < a.len()) {
        true
    } else if i >= b.len() {
        false
    } else if a[i] != b[i] {
        part_order(a[i], b[i])
    } else {
        parts_order(a, b, i + 1)
    }
}

/// The order of paths, component by component.
pub open spec fn path_order(a: Text, b: Text) -> bool {
    parts_order(components(a), components(b), 0)
}

proof fn lemma_parts_total(a: Seq<Text>, b: Seq<Text>, i: int)
    requires
        0 <= i,
    ensures
        parts_order(a, b, i) || parts_order(b, a, i),
    decreases a.len() - i,
{
    if i < a.len() && i < b.len() {
        if a[i] == b[i] {
            lemma_parts_total(a, b, i + 1);
        } else {
            text::order_is_total(a[i], b[i], b[i]);
        }
    }
}

proof fn lemma_parts_trans(a: Seq<Text>, b: Seq<Text>, c: Seq<Text>, i: int)
    requires
        0 <= i,
        parts_order(a, b, i),
        parts_order(b, c, i),
    ensures
        parts_order(a, c, i),
    decreases a.len() - i,
{
    if i < a.len() && i < b.len() && i < c.len() {
        if a[i] == b[i] && b[i] == c[i] {
            lemma_parts_trans(a, b, c, i + 1);
        } else if a[i] != b[i] && b[i] != c[i] {
            text::order_is_total(a[i], b[i], c[i]);
            if a[i] == c[i] && rank(a[i]) == rank(b[i]) {
                text::order_is_strict(a[i], b[i]);
            }
        }
    }
}

/// The order of paths is total and transitive.
pub proof fn path_order_is_total(a: Text, b: Text, c: Text)
    ensures
        path_order(a, a),
        path_order(a, b) || path_order(b, a),
        path_order(a, b) && path_order(b, c) ==> path_order(a, c),
{
    lemma_parts_total(components(a), components(a), 0);
    lemma_parts_total(components(a), components(b), 0);
    if path_order(a, b) && path_order(b, c) {
        lemma_parts_trans(components(a), components(b), components(c), 0);
    }
}

fn rank_of(part: &str) -> (r: u8)
    ensures
        r == rank(part@),
{
    proof {
        reveal_strlit("/");
        reveal_strlit(".");
        reveal_strlit("..");
        assert("/"@ =~= seq!['/']);
        assert("."@ =~= seq!['.']);
        assert(".."@ =~= seq!['.', '.']);
    }
    if text::same(part, "/") {
        0
    } else if text::same(part, ".") {
        1
    } else if text::same(part, "..") {
        2
    } else {
        3
    }
}

/// Does a path stand before another, or is it the same?
pub fn in_path_order(a: &str, b: &str) -> (r: bool)
    ensures
        r == path_order(a@, b@),
{
    let x = component_texts(a);
    let y = component_texts(b);
    let ghost xs = text::texts(x@);
    let ghost ys = text::texts(y@);
    let mut i: usize = 0;
    while i < x.len()
        invariant
            i <= x@.len(),
            xs == text::texts(x@),
            ys == text::texts(y@),
            xs == components(a@),
            ys == components(b@),
            path_order(a@, b@) == parts_order(xs, ys, i as int),
        decreases x@.len() - i,
    {
        if i >= y.len() {
            return false;
        }
        assert(xs[i as int] == x@[i as int]@);
        assert(ys[i as int] == y@[i as int]@);
        if !text::same(x[i].as_str(), y[i].as_str()) {
            let p = rank_of(x[i].as_str());
            let q = rank_of(y[i].as_str());
            return p < q || (p == q && text::is_in_order(x[i].as_str(), y[i].as_str()));
        }
        i = i + 1;
    }
    true
}

} // verus!
