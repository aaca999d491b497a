//! The arguments of a command in quotes, as its Debug form has them: writing
//! and reading back.

use vstd::prelude::*;
use crate::text;
use crate::text::{chars_of, Class, Text};

verus! {

// ---------------------------------------------------------------------
// Hexadecimal numbers

/// The hexadecimal digit `d`.
pub open spec fn hex_digit(d: nat) -> char {
    if d < 10 {
        ('0' as u32 + d) as char
    } else {
        ('a' as u32 + d - 10) as char
    }
}

pub open spec fn is_hex(c: char) -> bool {
    '0' <= c <= '9' || 'a' <= c <= 'f'
}

/// The value of a hexadecimal digit.
pub open spec fn hex_digit_value(c: char) -> nat {
    if c <= '9' {
        (c as u32 - '0' as u32) as nat
    } else {
        (c as u32 - 'a' as u32 + 10) as nat
    }
}

/// A number in hexadecimal, without leading zeros.
pub open spec fn hex(n: nat) -> Text
    decreases n,
{
    if n < 16 {
        seq![hex_digit(n)]
    } else {
        hex(n / 16).push(hex_digit(n % 16))
    }
}

/// The value of a text of hexadecimal digits.
pub open spec fn hex_value(s: Text) -> nat
    decreases s.len(),
{
    if s.len() == 0 {
        0
    } else {
        hex_value(s.drop_last()) * 16 + hex_digit_value(s.last())
    }
}

/// The first index, from `i` on, of no hexadecimal digit.
pub open spec fn hex_end(s: Text, i: int) -> int
    decreases s.len() - i,
{
    if 0 <= i < s.len() && is_hex(s[i]) {
        hex_end(s, i + 1)
    } else {
        i
    }
}

/// A number written in hexadecimal reads back as itself.
pub proof fn hex_reads_back(n: nat)
    ensures
        hex(n).len() > 0,
        forall|i: int| 0 <= i < hex(n).len() ==> is_hex(#[trigger] hex(n)[i]),
        hex_value(hex(n)) == n,
    decreases n,
{
    if n < 16 {
        let s = seq![hex_digit(n)];
        assert(s.drop_last() =~= Seq::<char>::empty());
        assert(hex_value(s.drop_last()) == 0);
    } else {
        hex_reads_back(n / 16);
        let s = hex(n);
        assert(s.drop_last() =~= hex(n / 16));
        assert forall|i: int| 0 <= i < s.len() implies is_hex(#[trigger] s[i]) by {
            if i < s.len() - 1 {
                assert(s[i] == hex(n / 16)[i]);
            }
        }
    }
}

fn hex_char(d: u32) -> (r: char)
    requires
        d < 16,
    ensures
        r == hex_digit(d as nat),
{
    let b: u8 = d as u8;
    if b < 10 {
        (48 + b) as char
    } else {
        (87 + b) as char
    }
}

fn push_hex(out: &mut String, n: u32)
    ensures
        final(out)@ == old(out)@ + hex(n as nat),
    decreases n,
{
    if n >= 16 {
        push_hex(out, n / 16);
    }
    out.push(hex_char(n % 16));
    assert(out@ =~= old(out)@ + hex(n as nat));
}

fn hex_number(c: char) -> (r: Option<u32>)
    ensures
        r is Some <==> is_hex(c),
        r matches Some(d) ==> d == hex_digit_value(c) && d < 16,
{
    let v: u32 = c as u32;
    if 48 <= v && v <= 57 {
        Some(v - 48)
    } else if 97 <= v && v <= 102 {
        Some(v - 87)
    } else {
        None
    }
}

// ---------------------------------------------------------------------
// Writing

/// A character as `char::escape_debug` writes it.
pub uninterp spec fn debug_form(c: char) -> Text;

/// `char::escape_debug`: the character as the Debug form of a text has it,
/// named [`debug_form`]; it depends on the character alone.
#[verifier::external_body]
fn escape_debug(c: char) -> (r: String)
    ensures
        r@ == debug_form(c),
{
    c.escape_debug().to_string()
}

/// A character as it stands inside quotes: quotes and backslashes after a
/// backslash; the tab, the line ends and the zero character by their letter
/// and the other control characters by their number; and a character beyond
/// ASCII as it is where the Debug form leaves it so, else by its number.
pub open spec fn escaped_char(c: char) -> Text {
    if c == '"' || c == '\'' || c == '\\' {
        seq!['\\', c]
    } else if c == '\t' {
        seq!['\\', 't']
    } else if c == '\n' {
        seq!['\\', 'n']
    } else if c == '\r' {
        seq!['\\', 'r']
    } else if c == '\0' {
        seq!['\\', '0']
    } else if ' ' <= c <= '~' {
        seq![c]
    } else if (c as u32) < 128 {
        seq!['\\', 'x', hex_digit((c as u32 / 16) as nat), hex_digit((c as u32 % 16) as nat)]
    } else if debug_form(c) == seq![c] {
        seq![c]
    } else {
        seq!['\\', 'u', '{'] + hex(c as nat) + seq!['}']
    }
}

/// A text as it stands inside quotes.
pub open spec fn escaped(s: Text) -> Text
    decreases s.len(),
{
    if s.len() == 0 {
        Seq::empty()
    } else {
        escaped_char(s[0]) + escaped(s.drop_first())
    }
}

/// The arguments of a command, each quoted and with a space before it.
pub open spec fn quoted(args: Seq<Text>) -> Text
    decreases args.len(),
{
    if args.len() == 0 {
        Seq::empty()
    } else {
        seq![' ', '"'] + escaped(args[0]) + seq!['"'] + quoted(args.drop_first())
    }
}

fn put_escaped_char(out: &mut String, c: char)
    ensures
        final(out)@ == old(out)@ + escaped_char(c),
{
    let v: u32 = c as u32;
    if c == '"' || c == '\'' || c == '\\' {
        out.push('\\');
        out.push(c);
    } else if c == '\t' {
        out.push('\\');
        out.push('t');
    } else if c == '\n' {
        out.push('\\');
        out.push('n');
    } else if c == '\r' {
        out.push('\\');
        out.push('r');
    } else if c == '\0' {
        out.push('\\');
        out.push('0');
    } else if 32 <= v && v <= 126 {
        out.push(c);
    } else if v < 128 {
        out.push('\\');
        out.push('x');
        out.push(hex_char(v / 16));
        out.push(hex_char(v % 16));
    } else {
        let form = escape_debug(c);
        let mut bare = String::new();
        bare.push(c);
        assert(bare@ =~= seq![c]);
        if text::same(form.as_str(), bare.as_str()) {
            out.push(c);
        } else {
            out.push('\\');
            out.push('u');
            out.push('{');
            let ghost front = out@;
            push_hex(out, v);
            out.push('}');
            assert(front =~= old(out)@ + seq!['\\', 'u', '{']);
        }
    }
    assert(out@ =~= old(out)@ + escaped_char(c));
}

fn put_escaped(out: &mut String, s: &str)
    ensures
        final(out)@ == old(out)@ + escaped(s@),
{
    let v = chars_of(s);
    let ghost all = out@ + escaped(v@);
    let mut i: usize = 0;
    assert(v@.skip(0) =~= v@);
    while i < v.len()
        invariant
            i <= v@.len(),
            out@ + escaped(v@.skip(i as int)) == all,
        decreases v@.len() - i,
    {
        let c = v[i];
        let ghost before = out@;
        assert(v@.skip(i as int)[0] == c);
        assert(v@.skip(i as int).drop_first() =~= v@.skip(i + 1));
        put_escaped_char(out, c);
        assert(out@ + escaped(v@.skip(i + 1)) =~= before + escaped(v@.skip(i as int)));
        i = i + 1;
    }
    assert(out@ + escaped(v@.skip(i as int)) =~= out@);
}

/// The arguments of a command, each quoted and with a space before it.
pub fn quote(args: &Vec<String>) -> (r: String)
    ensures
        r@ == quoted(text::texts(args@)),
{
    let ghost all = text::texts(args@);
    let mut out = String::new();
    let mut i: usize = 0;
    assert(all.skip(0) =~= all);
    assert(out@ + quoted(all) =~= quoted(all));
    while i < args.len()
        invariant
            i <= args@.len(),
            all == text::texts(args@),
            out@ + quoted(all.skip(i as int)) == quoted(all),
        decreases args@.len() - i,
    {
        let ghost before = out@;
        assert(all.skip(i as int)[0] == args@[i as int]@);
        assert(all.skip(i as int).drop_first() =~= all.skip(i + 1));
        out.push(' ');
        out.push('"');
        put_escaped(&mut out, args[i].as_str());
        out.push('"');
        assert(out@ =~= before + (seq![' ', '"'] + escaped(args@[i as int]@) + seq!['"']));
        assert(out@ + quoted(all.skip(i + 1)) =~= before + quoted(all.skip(i as int)));
        i = i + 1;
    }
    assert(out@ + quoted(all.skip(i as int)) =~= out@);
    out
}

// ---------------------------------------------------------------------
// Reading

/// Is this the number of a character?
pub open spec fn is_scalar(n: nat) -> bool {
    n <= 0xD7FF || 0xE000 <= n <= 0x10FFFF
}

/// `char::from_u32`: the character of a number, where it is that of one.
pub assume_specification[ char::from_u32 ](i: u32) -> (r: Option<char>)
    ensures
        r is Some <==> is_scalar(i as nat),
        r matches Some(c) ==> c == i as char,
;

/// The character that what follows a backslash stands for, from index `j` on,
/// and how many characters of the text it takes. What is no escape stands
/// for its first character.
pub open spec fn unescaped(s: Text, j: int) -> (char, int) {
    let c = s[j];
    if c == 't' {
        ('\t', 1)
    } else if c == 'n' {
        ('\n', 1)
    } else if c == 'r' {
        ('\r', 1)
    } else if c == '0' {
        ('\0', 1)
    } else if c == 'x' && j + 2 < s.len() && '0' <= s[j + 1] <= '7' && is_hex(s[j + 2]) {
        ((hex_digit_value(s[j + 1]) * 16 + hex_digit_value(s[j + 2])) as char, 3)
    } else if c == 'u' && j + 1 < s.len() && s[j + 1] == '{' {
        let e = hex_end(s, j + 2);
        let n = hex_value(s.subrange(j + 2, e));
        if j + 2 < e < s.len() && s[e] == '}' && is_scalar(n) {
            (n as char, e + 1 - j)
        } else {
            (c, 1)
        }
    } else {
        (c, 1)
    }
}

/// The quoted strings of `s` from index `i` on, outside of quotes.
pub open spec fn outside(s: Text, i: int) -> Seq<Text>
    decreases s.len() - i,
{
    if !(0 <= i < s.len()) {
        Seq::empty()
    } else if s[i] == '"' {
        inside(s, i + 1, Seq::empty())
    } else {
        outside(s, i + 1)
    }
}

/// The quoted strings of `s` from index `i` on, inside quotes, where
/// `current` is what stands in these quotes so far. A backslash begins an
/// escape; a string without its closing quote does not count.
pub open spec fn inside(s: Text, i: int, current: Text) -> Seq<Text>
    decreases s.len() - i,
{
    if !(0 <= i < s.len()) {
        Seq::empty()
    } else if s[i] == '"' {
        seq![current] + outside(s, i + 1)
    } else if s[i] == '\\' {
        if i + 1 < s.len() {
            let (c, n) = unescaped(s, i + 1);
            if n >= 1 {
                inside(s, i + 1 + n, current.push(c))
            } else {
                Seq::empty()
            }
        } else {
            Seq::empty()
        }
    } else {
        inside(s, i + 1, current.push(s[i]))
    }
}

proof fn lemma_hex_end(s: Text, i: int)
    requires
        0 <= i <= s.len(),
    ensures
        i <= hex_end(s, i) <= s.len(),
        forall|k: int| i <= k < hex_end(s, i) ==> is_hex(#[trigger] s[k]),
        hex_end(s, i) < s.len() ==> !is_hex(s[hex_end(s, i)]),
    decreases s.len() - i,
{
    if i < s.len() && is_hex(s[i]) {
        lemma_hex_end(s, i + 1);
    }
}

proof fn lemma_hex_end_is(s: Text, i: int, e: int)
    requires
        0 <= i <= e < s.len(),
        forall|k: int| i <= k < e ==> is_hex(#[trigger] s[k]),
        !is_hex(s[e]),
    ensures
        hex_end(s, i) == e,
    decreases e - i,
{
    if i < e {
        lemma_hex_end_is(s, i + 1, e);
    }
}

/// Read the hexadecimal digits from index `i` on: where they end, and their
/// value, or some value beyond the characters where theirs is.
fn read_hex(v: &Vec<char>, i: usize) -> (r: (usize, u32))
    requires
        i <= v@.len(),
    ensures
        r.0 == hex_end(v@, i as int),
        i <= r.0 <= v@.len(),
        r.1 <= 0x10FFFF <==> hex_value(v@.subrange(i as int, r.0 as int)) <= 0x10FFFF,
        r.1 <= 0x10FFFF ==> r.1 == hex_value(v@.subrange(i as int, r.0 as int)),
{
    let mut e: usize = i;
    let mut n: u32 = 0;
    assert(v@.subrange(i as int, i as int) =~= Seq::empty());
    while e < v.len()
        invariant
            i <= e <= v@.len(),
            hex_end(v@, i as int) == hex_end(v@, e as int),
            n <= 0x10FFFF * 16 + 15,
            n <= 0x10FFFF <==> hex_value(v@.subrange(i as int, e as int)) <= 0x10FFFF,
            n <= 0x10FFFF ==> n == hex_value(v@.subrange(i as int, e as int)),
        ensures
            i <= e <= v@.len(),
            hex_end(v@, i as int) == e,
            n <= 0x10FFFF <==> hex_value(v@.subrange(i as int, e as int)) <= 0x10FFFF,
            n <= 0x10FFFF ==> n == hex_value(v@.subrange(i as int, e as int)),
        decreases v@.len() - e,
    {
        match hex_number(v[e]) {
            Some(d) => {
                let ghost before = v@.subrange(i as int, e as int);
                let ghost after = v@.subrange(i as int, e + 1);
                assert(after.drop_last() =~= before);
                assert(after.last() == v@[e as int]);
                if n <= 0x10FFFF {
                    n = n * 16 + d;
                }
                e = e + 1;
            },
            None => {
                break;
            },
        }
    }
    (e, n)
}

/// Read what follows a backslash.
fn unescape(v: &Vec<char>, j: usize) -> (r: (char, usize))
    requires
        j < v@.len(),
    ensures
        r.0 == unescaped(v@, j as int).0,
        r.1 == unescaped(v@, j as int).1,
        1 <= r.1 <= v@.len() - j,
{
    let n: usize = v.len();
    let c = v[j];
    proof {
        if j + 2 <= n {
            lemma_hex_end(v@, j + 2);
        }
    }
    if c == 't' {
        return ('\t', 1);
    }
    if c == 'n' {
        return ('\n', 1);
    }
    if c == 'r' {
        return ('\r', 1);
    }
    if c == '0' {
        return ('\0', 1);
    }
    if c == 'x' && n - j > 2 {
        match (hex_number(v[j + 1]), hex_number(v[j + 2])) {
            (Some(a), Some(b)) => {
                if a < 8 {
                    let code: u8 = (a * 16 + b) as u8;
                    return (code as char, 3);
                }
            },
            _ => {},
        }
        return (c, 1);
    }
    if c == 'u' && n - j > 1 && v[j + 1] == '{' {
        let (e, value) = read_hex(v, j + 2);
        if e > j + 2 && e < n && v[e] == '}' {
            match char::from_u32(value) {
                Some(d) => {
                    return (d, e + 1 - j);
                },
                None => {},
            }
        }
    }
    (c, 1)
}

/// The strings of a line that stand in double quotes, in order.
pub fn quoted_tokens(line: &str) -> (r: Vec<String>)
    ensures
        text::texts(r@) == outside(line@, 0),
{
    let v = chars_of(line);
    let n: usize = v.len();
    let mut tokens: Vec<String> = Vec::new();
    let mut current = String::new();
    let mut in_quotes = false;
    let mut i: usize = 0;
    let ghost all = outside(v@, 0);
    assert(text::texts(tokens@) + outside(v@, 0) =~= all);
    while i < n
        invariant
            i <= n == v@.len(),
            all == outside(v@, 0),
            text::texts(tokens@) + (if in_quotes {
                inside(v@, i as int, current@)
            } else {
                outside(v@, i as int)
            }) == all,
            !in_quotes ==> current@.len() == 0,
        decreases n - i,
    {
        let c = v[i];
        if !in_quotes {
            if c == '"' {
                in_quotes = true;
                assert(current@ =~= Seq::<char>::empty());
            }
            i = i + 1;
        } else if c == '"' {
            in_quotes = false;
            let ghost before = tokens@;
            let ghost token = current@;
            tokens.push(current);
            current = String::new();
            assert(text::texts(tokens@) =~= text::texts(before).push(token));
            assert(text::texts(before) + inside(v@, i as int, token) =~= text::texts(tokens@)
                + outside(v@, i + 1));
            i = i + 1;
        } else if c == '\\' {
            if i + 1 < n {
                let (d, taken) = unescape(&v, i + 1);
                current.push(d);
                i = i + 1 + taken;
            } else {
                i = i + 1;
                assert(inside(v@, i as int, current@) =~= Seq::empty());
            }
        } else {
            current.push(c);
            i = i + 1;
        }
    }
    assert(text::texts(tokens@) =~= all);
    tokens
}

// ---------------------------------------------------------------------
// What is written reads back

/// Does `part` stand in `s` from index `i` on?
spec fn stands(s: Text, i: int, part: Text) -> bool {
    0 <= i && i + part.len() <= s.len() && forall|k: int|
        0 <= k < part.len() ==> s[i + k] == #[trigger] part[k]
}

/// One written character reads back as itself.
proof fn lemma_inside_char(s: Text, i: int, c: char, current: Text)
    requires
        stands(s, i, escaped_char(c)),
        i + escaped_char(c).len() < s.len(),
    ensures
        inside(s, i, current) == inside(s, i + escaped_char(c).len(), current.push(c)),
{
    let e = escaped_char(c);
    let n = e.len() as int;
    assert(s[i] == e[0]);
    if n == 1 {
        assert(c != '"' && c != '\\');
    } else {
        assert(e[0] == '\\');
        assert(s[i + 1] == e[1]);
        if (c as u32) >= 128 {
            let h = hex(c as nat);
            hex_reads_back(c as nat);
            assert(e =~= seq!['\\', 'u', '{'] + h + seq!['}']);
            assert(s[i + 2] == e[2]);
            let end = i + 3 + h.len();
            assert(s[end] == e[3 + h.len() as int]);
            assert forall|k: int| i + 3 <= k < end implies is_hex(#[trigger] s[k]) by {
                assert(s[i + (k - i)] == e[k - i]);
                assert(e[k - i] == h[k - i - 3]);
            }
            lemma_hex_end_is(s, i + 3, end);
            assert(s.subrange(i + 3, end) =~= h) by {
                assert forall|k: int| 0 <= k < h.len() implies s[i + 3 + k] == h[k] by {
                    assert(s[i + (3 + k)] == e[3 + k]);
                }
            }
            assert(unescaped(s, i + 1) == (c, n - 1));
        } else if e[1] == 'x' {
            assert(n == 4);
            assert(s[i + 2] == e[2] && s[i + 3] == e[3]);
            let v = c as u32;
            assert(v / 16 < 8 && v % 16 < 16 && v == (v / 16) * 16 + v % 16);
            assert(unescaped(s, i + 1) == (c, 3int));
        } else {
            assert(n == 2);
            assert(unescaped(s, i + 1) == (c, 1int));
        }
    }
}

proof fn lemma_inside(s: Text, i: int, arg: Text, current: Text)
    requires
        stands(s, i, escaped(arg)),
        i + escaped(arg).len() < s.len(),
        s[i + escaped(arg).len()] == '"',
    ensures
        inside(s, i, current) == seq![current + arg] + outside(s, i + escaped(arg).len() + 1),
    decreases arg.len(),
{
    let e = escaped(arg);
    if arg.len() == 0 {
        assert(current + arg =~= current);
    } else {
        let c = arg[0];
        let rest = arg.drop_first();
        let head = escaped_char(c);
        let step = head.len() as int;
        assert(e == head + escaped(rest));
        assert(stands(s, i, head)) by {
            assert forall|k: int| 0 <= k < head.len() implies s[i + k] == #[trigger] head[k] by {
                assert(e[k] == head[k]);
            }
        }
        assert(stands(s, i + step, escaped(rest))) by {
            assert forall|k: int| 0 <= k < escaped(rest).len() implies s[i + step + k]
                == #[trigger] escaped(rest)[k] by {
                assert(e[step + k] == escaped(rest)[k]);
                assert(s[i + (step + k)] == e[step + k]);
            }
        }
        lemma_inside_char(s, i, c, current);
        lemma_inside(s, i + step, rest, current.push(c));
        assert(current.push(c) + rest =~= current + arg);
    }
}

proof fn lemma_outside(s: Text, i: int, args: Seq<Text>)
    requires
        0 <= i <= s.len(),
        s.skip(i) == quoted(args),
    ensures
        outside(s, i) == args,
    decreases args.len(),
{
    if args.len() == 0 {
        assert(s.len() == i);
        assert(outside(s, i) =~= args);
    } else {
        let t = s.skip(i);
        let e = escaped(args[0]);
        let front = seq![' ', '"'] + e + seq!['"'];
        let rest = quoted(args.drop_first());
        assert(t == front + rest);
        assert(t[0] == ' ' && t[1] == '"');
        assert(s[i] == t[0] && s[i + 1] == t[1]);
        assert(stands(s, i + 2, e)) by {
            assert forall|k: int| 0 <= k < e.len() implies s[i + 2 + k] == #[trigger] e[k] by {
                assert(t[2 + k] == front[2 + k]);
            }
        }
        assert(t[2 + e.len() as int] == '"');
        assert(s[i + 2 + e.len()] == t[2 + e.len() as int]);
        lemma_inside(s, i + 2, args[0], Seq::empty());
        let next = i + 3 + e.len();
        assert(s.skip(next) =~= rest) by {
            assert forall|k: int| 0 <= k < rest.len() implies s[next + k] == rest[k] by {
                assert(t[3 + e.len() + k] == rest[k]);
            }
        }
        lemma_outside(s, next, args.drop_first());
        assert(outside(s, i + 1) == inside(s, i + 2, Seq::empty()));
        assert(Seq::<char>::empty() + args[0] =~= args[0]);
        assert(seq![args[0]] + args.drop_first() =~= args);
    }
}

proof fn lemma_outside_prefix(s: Text, i: int, j: int)
    requires
        0 <= i <= j <= s.len(),
        forall|k: int| i <= k < j ==> s[k] != '"',
    ensures
        outside(s, i) == outside(s, j),
    decreases j - i,
{
    if i < j {
        lemma_outside_prefix(s, i + 1, j);
    }
}

/// The quoted arguments of a command read back from its log line, whatever
/// characters they hold.
pub proof fn logged_arguments_read_back(prefix: Text, args: Seq<Text>)
    requires
        text::all_in(prefix, Class::Not('"')),
    ensures
        outside(prefix + quoted(args), 0) == args,
{
    let s = prefix + quoted(args);
    let n = prefix.len() as int;
    assert(s.skip(n) =~= quoted(args));
    assert forall|k: int| 0 <= k < n implies s[k] != '"' by {
        assert(text::in_class(prefix[k], Class::Not('"')));
    }
    lemma_outside_prefix(s, 0, n);
    lemma_outside(s, n, args);
}

proof fn lemma_escaped_is_single(arg: Text)
    ensures
        text::all_in(escaped(arg), Class::Not('\n')),
    decreases arg.len(),
{
    let k = Class::Not('\n');
    if arg.len() > 0 {
        let c = arg[0];
        let head = escaped_char(c);
        lemma_escaped_is_single(arg.drop_first());
        hex_reads_back(c as nat);
        let h = hex(c as nat);
        assert forall|i: int| 0 <= i < head.len() implies text::in_class(#[trigger] head[i], k) by {
            if (c as u32) >= 128 && head.len() > 1 {
                if 3 <= i < 3 + h.len() {
                    assert(head[i] == h[i - 3]);
                }
            }
        }
        let all = escaped(arg);
        assert forall|i: int| 0 <= i < all.len() implies text::in_class(#[trigger] all[i], k) by {
            if i >= head.len() {
                assert(all[i] == escaped(arg.drop_first())[i - head.len()]);
            } else {
                assert(all[i] == head[i]);
            }
        }
    }
}

/// The quoted arguments of a command stand on one line, whatever characters
/// they hold, and end with a quote.
pub proof fn quoted_arguments_are_one_line(args: Seq<Text>)
    ensures
        text::all_in(quoted(args), Class::Not('\n')),
        args.len() > 0 ==> quoted(args).len() > 0 && quoted(args).last() == '"',
    decreases args.len(),
{
    let k = Class::Not('\n');
    if args.len() > 0 {
        let e = escaped(args[0]);
        let front = seq![' ', '"'] + e + seq!['"'];
        let rest = quoted(args.drop_first());
        let all = quoted(args);
        assert(all == front + rest);
        lemma_escaped_is_single(args[0]);
        quoted_arguments_are_one_line(args.drop_first());
        assert forall|i: int| 0 <= i < all.len() implies text::in_class(#[trigger] all[i], k) by {
            if 2 <= i < 2 + e.len() {
                assert(all[i] == e[i - 2]);
            } else if i >= front.len() {
                assert(all[i] == rest[i - front.len()]);
            }
        }
        if args.len() > 1 {
            assert(all.last() == rest.last());
        } else {
            assert(rest =~= Seq::<char>::empty());
            assert(all.last() == front.last());
        }
    }
}

} // verus!
