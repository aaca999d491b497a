//! The shared auto-normalization configuration file (`autoreduction.cfg`).
//! The file is simple `key: value` YAML, e.g.:
//!
//! ```text
//! user_autoreduction_config_file: /SNS/VENUS/IPTS-xxx/.../config.h5
//! activate: false
//! ipts: IPTS-36967
//! last_modified: '2026-07-18 08:43:47'
//! last_modified_by: j35
//! ```
//!
//! Only the line of the flag is rewritten when a state is toggled (plus the
//! `last_modified`/`last_modified_by` bookkeeping lines the file already
//! carries); every other line is preserved byte-for-byte, its line end too.

use vstd::prelude::*;
use crate::text;
use crate::text::{Class, Text};

verus! {

/// Snapshot of the configuration file, keeping the raw key order for display.
#[derive(Debug)]
pub struct AutoNormConfig {
    /// Parsed value of the `activate` flag.
    pub activate: bool,
    /// The rolling windows are part of the auto normalization (false when
    /// the key is absent).
    pub rolling_combine: bool,
    /// Every upcoming run is normalized on its own (false when the key is
    /// absent).
    pub live_reduction: bool,
    /// All `key: value` pairs in file order (values with quotes stripped),
    /// for read-only display in the UI.
    pub entries: Vec<(String, String)>,
}

/// The contents of a configuration file.
pub struct Contents {
    pub activate: bool,
    pub rolling_combine: bool,
    pub live_reduction: bool,
    pub entries: Seq<(Text, Text)>,
}

impl View for AutoNormConfig {
    type V = Contents;

    open spec fn view(&self) -> Contents {
        Contents {
            activate: self.activate,
            rolling_combine: self.rolling_combine,
            live_reduction: self.live_reduction,
            entries: text::pair_texts(self.entries@),
        }
    }
}

/// The key and value of a line; none for blanks, comments and lines without
/// a colon.
pub open spec fn key_value(line: Text) -> Option<(Text, Text)> {
    let t = text::trimmed(line);
    if t.len() == 0 || t[0] == '#' {
        None
    } else {
        match text::cut(t, ":"@) {
            Some((key, value)) => Some((text::trimmed(key), text::trimmed(value))),
            None => None,
        }
    }
}

/// A value without the quotes around it.
pub open spec fn unquoted(value: Text) -> Text {
    text::trimmed_of(value, Class::Quote)
}

/// `True`, `true`, `1`, `yes`, `on` mean true (the file historically mixes
/// Python-style `True` and YAML `true`).
pub open spec fn truthy(value: Text) -> bool {
    let v = text::lowered(unquoted(value));
    v == "true"@ || v == "1"@ || v == "yes"@ || v == "on"@
}

/// The key-value pairs of lines, in order.
pub open spec fn pairs(lines: Seq<Text>) -> Seq<(Text, Text)>
    decreases lines.len(),
{
    if lines.len() == 0 {
        Seq::empty()
    } else {
        match key_value(lines.last()) {
            Some(pair) => pairs(lines.drop_last()).push(pair),
            None => pairs(lines.drop_last()),
        }
    }
}

/// The value of a key: that of its last line.
pub open spec fn value_of(pairs: Seq<(Text, Text)>, key: Text) -> Option<Text>
    decreases pairs.len(),
{
    if pairs.len() == 0 {
        None
    } else if pairs.last().0 == key {
        Some(pairs.last().1)
    } else {
        value_of(pairs.drop_last(), key)
    }
}

/// The value of a flag; `None` when its key is absent.
pub open spec fn flag(pairs: Seq<(Text, Text)>, key: Text) -> Option<bool> {
    match value_of(pairs, key) {
        Some(value) => Some(truthy(value)),
        None => None,
    }
}

/// What a file with these pairs says, where it has the `activate` flag.
pub open spec fn contents(pairs: Seq<(Text, Text)>) -> Option<Contents> {
    match flag(pairs, "activate"@) {
        Some(activate) => Some(
            Contents {
                activate,
                rolling_combine: flag(pairs, "rolling_combine"@) == Some(true),
                live_reduction: flag(pairs, "live_reduction"@) == Some(true),
                entries: pairs.map_values(|p: (Text, Text)| (p.0, unquoted(p.1))),
            },
        ),
        None => None,
    }
}

pub open spec fn no_flag(path: Text) -> Text {
    "no 'activate' flag found in "@ + path
}

/// Split a `key: value` line; returns `None` for blanks/comments.
fn split_key_value(line: &str) -> (r: Option<(String, String)>)
    ensures
        text::opt_pair(r) == key_value(line@),
{
    let t = text::trim(line);
    proof {
        reveal_strlit("#");
        if t@.len() > 0 {
            assert(t@.subrange(0, 1)[0] == t@[0]);
            if t@[0] == '#' {
                assert(t@.subrange(0, 1) =~= "#"@);
            }
        }
    }
    if t.as_str().is_empty() || text::starts_with(t.as_str(), "#") {
        return None;
    }
    match text::split_once(t.as_str(), ":") {
        Some((key, value)) => Some((text::trim(key.as_str()), text::trim(value.as_str()))),
        None => None,
    }
}

fn parse_bool(value: &str) -> (r: bool)
    ensures
        r == truthy(value@),
{
    let bare = text::trim_of(value, Class::Quote);
    let v = text::lowercase(bare.as_str());
    let s = v.as_str();
    text::same(s, "true") || text::same(s, "1") || text::same(s, "yes") || text::same(s, "on")
}

/// The flag as it stands in the pairs read so far.
fn updated(flag: Option<bool>, key: &str, value: &str, wanted: &str) -> (r: Option<bool>)
    ensures
        r == (if key@ == wanted@ {
            Some(truthy(value@))
        } else {
            flag
        }),
{
    if text::same(key, wanted) {
        Some(parse_bool(value))
    } else {
        flag
    }
}

/// What is read of the text of a file; nothing without an `activate` flag.
pub open spec fn reading(content: Text) -> Option<Contents> {
    contents(pairs(text::lines_of(content)))
}

/// The value of a key in the text of a file.
pub open spec fn value_in(content: Text, key: Text) -> Option<Text> {
    value_of(pairs(text::lines_of(content)), key)
}

/// Parse the configuration file's content; `path` names the file in the
/// error.
pub fn read(content: &str, path: &str) -> (r: Result<AutoNormConfig, String>)
    ensures
        match r {
            Ok(cfg) => contents(pairs(text::lines_of(content@))) == Some(cfg@),
            Err(message) => contents(pairs(text::lines_of(content@))) is None && message@
                == no_flag(path@),
        },
        match r {
            Ok(cfg) => reading(content@) == Some(cfg@),
            Err(_) => reading(content@) is None,
        },
{
    let lines = text::lines(content);
    let ghost ls = text::lines_of(content@);
    let mut activate: Option<bool> = None;
    let mut rolling: Option<bool> = None;
    let mut live: Option<bool> = None;
    let mut entries: Vec<(String, String)> = Vec::new();
    let mut i: usize = 0;
    let ghost shown = |p: (Text, Text)| (p.0, unquoted(p.1));
    while i < lines.len()
        invariant
            i <= lines@.len(),
            ls == text::texts(lines@),
            shown == (|p: (Text, Text)| (p.0, unquoted(p.1))),
            activate == flag(pairs(ls.take(i as int)), "activate"@),
            rolling == flag(pairs(ls.take(i as int)), "rolling_combine"@),
            live == flag(pairs(ls.take(i as int)), "live_reduction"@),
            text::pair_texts(entries@) =~= pairs(ls.take(i as int)).map_values(shown),
        decreases lines@.len() - i,
    {
        let ghost seen = pairs(ls.take(i as int));
        proof {
            assert(ls.take(i + 1).drop_last() =~= ls.take(i as int));
            assert(ls.take(i + 1).last() == lines@[i as int]@);
        }
        match split_key_value(lines[i].as_str()) {
            Some((key, value)) => {
                proof {
                    assert(pairs(ls.take(i + 1)) == seen.push((key@, value@)));
                    assert(seen.push((key@, value@)).drop_last() =~= seen);
                }
                activate = updated(activate, key.as_str(), value.as_str(), "activate");
                rolling = updated(rolling, key.as_str(), value.as_str(), "rolling_combine");
                live = updated(live, key.as_str(), value.as_str(), "live_reduction");
                let bare = text::trim_of(value.as_str(), Class::Quote);
                let ghost before = entries@;
                entries.push((key, bare));
                assert(text::pair_texts(entries@) =~= text::pair_texts(before).push((key@, bare@)));
            },
            None => {},
        }
        i = i + 1;
    }
    assert(ls.take(i as int) =~= ls);
    match activate {
        None => Err(text::cat2("no 'activate' flag found in ", path)),
        Some(activate) => Ok(
            AutoNormConfig {
                activate,
                rolling_combine: rolling == Some(true),
                live_reduction: live == Some(true),
                entries,
            },
        ),
    }
}

impl AutoNormConfig {
    /// Is the flag of this key on? One that the file does not have is off.
    pub fn is_on(&self, key: &str) -> (r: bool)
        ensures
            r == (flag(self@.entries, key@) == Some(true)),
    {
        match self.get(key) {
            Some(value) => parse_bool(value),
            None => false,
        }
    }

    /// The value of a key, as the file's last line with that key has it.
    pub fn get(&self, key: &str) -> (r: Option<&str>)
        ensures
            text::opt_str(r) == value_of(self@.entries, key@),
    {
        let ghost es = self@.entries;
        let mut i: usize = self.entries.len();
        assert(es.take(i as int) =~= es);
        while i > 0
            invariant
                i <= self.entries@.len(),
                es == self@.entries,
                value_of(es, key@) == value_of(es.take(i as int), key@),
            decreases i,
        {
            proof {
                assert(es.take(i as int).drop_last() =~= es.take(i - 1));
                assert(es.take(i as int).last() == (
                    self.entries@[i - 1].0@,
                    self.entries@[i - 1].1@,
                ));
            }
            i = i - 1;
            if text::same(self.entries[i].0.as_str(), key) {
                return Some(self.entries[i].1.as_str());
            }
        }
        None
    }
}

// ---------------------------------------------------------------------
// Writing

/// A flag's line.
pub open spec fn flag_line(key: Text, on: bool) -> Text {
    key + ": "@ + (if on {
        "true"@
    } else {
        "false"@
    })
}

/// The bookkeeping lines.
pub open spec fn time_line(now: Text) -> Text {
    "last_modified: '"@ + now + "'"@
}

pub open spec fn user_line(user: Text) -> Text {
    "last_modified_by: "@ + user
}

/// What stands between the line feeds of a file: its lines, a carriage
/// return before a line feed included, and what follows the last line feed.
pub open spec fn parts(content: Text) -> Seq<Text> {
    text::pieces(content, Class::Not('\n'))
}

/// A line that takes the place of another, and its carriage return with it.
pub open spec fn in_place_of(line: Text, old_line: Text) -> Text {
    if old_line.len() > 0 && old_line.last() == '\r' {
        line.push('\r')
    } else {
        line
    }
}

/// A line of the file after the flag `key` was set.
pub open spec fn rewritten(line: Text, key: Text, on: bool, now: Text, user: Text) -> Text {
    match key_value(line) {
        Some((k, _)) => if k == key {
            in_place_of(flag_line(key, on), line)
        } else if k == "last_modified"@ {
            in_place_of(time_line(now), line)
        } else if k == "last_modified_by"@ {
            in_place_of(user_line(user), line)
        } else {
            line
        },
        None => line,
    }
}

/// The lines of the file after the flag `key` was set.
pub open spec fn rewritten_all(
    lines: Seq<Text>,
    key: Text,
    on: bool,
    now: Text,
    user: Text,
) -> Seq<Text> {
    lines.map_values(|l: Text| rewritten(l, key, on, now, user))
}

fn put_flag_line(key: &str, on: bool) -> (r: String)
    ensures
        r@ == flag_line(key@, on),
{
    if on {
        text::cat3(key, ": ", "true")
    } else {
        text::cat3(key, ": ", "false")
    }
}

fn put_in_place(line: String, old_line: &str) -> (r: String)
    ensures
        r@ == in_place_of(line@, old_line@),
{
    let v = text::chars_of(old_line);
    let mut out = line;
    if v.len() > 0 && v[v.len() - 1] == '\r' {
        out.push('\r');
    }
    out
}

/// Rewrite the lines for a flag; also tells whether the flag's line is there.
fn rewrite(lines: &Vec<String>, key: &str, on: bool, now: &str, user: &str) -> (r: (
    Vec<String>,
    bool,
))
    ensures
        text::texts(r.0@) == rewritten_all(text::texts(lines@), key@, on, now@, user@),
        r.1 == (value_of(pairs(text::texts(lines@)), key@) is Some),
{
    let ghost ls = text::texts(lines@);
    let mut out: Vec<String> = Vec::new();
    let mut there = false;
    let mut i: usize = 0;
    while i < lines.len()
        invariant
            i <= lines@.len(),
            ls == text::texts(lines@),
            text::texts(out@) =~= rewritten_all(ls.take(i as int), key@, on, now@, user@),
            there == (value_of(pairs(ls.take(i as int)), key@) is Some),
        decreases lines@.len() - i,
    {
        let ghost seen = pairs(ls.take(i as int));
        proof {
            assert(ls.take(i + 1).drop_last() =~= ls.take(i as int));
            assert(ls.take(i + 1).last() == lines@[i as int]@);
        }
        let line = match split_key_value(lines[i].as_str()) {
            Some((k, value)) => {
                proof {
                    assert(pairs(ls.take(i + 1)) == seen.push((k@, value@)));
                    assert(seen.push((k@, value@)).drop_last() =~= seen);
                }
                if text::same(k.as_str(), key) {
                    there = true;
                    put_in_place(put_flag_line(key, on), lines[i].as_str())
                } else if text::same(k.as_str(), "last_modified") {
                    put_in_place(text::cat3("last_modified: '", now, "'"), lines[i].as_str())
                } else if text::same(k.as_str(), "last_modified_by") {
                    put_in_place(text::cat2("last_modified_by: ", user), lines[i].as_str())
                } else {
                    lines[i].clone()
                }
            },
            None => lines[i].clone(),
        };
        let ghost before = out@;
        out.push(line);
        assert(text::texts(out@) =~= text::texts(before).push(
            rewritten(ls[i as int], key@, on, now@, user@),
        ));
        i = i + 1;
    }
    assert(ls.take(i as int) =~= ls);
    (out, there)
}

/// The text of a file with the automatic normalization switched on or off;
/// none where it has no flag for it.
pub open spec fn activated(content: Text, on: bool, now: Text, user: Text) -> Option<Text> {
    if reading(content) is Some {
        Some(
            text::joined(rewritten_all(parts(content), "activate"@, on, now, user), "\n"@),
        )
    } else {
        None
    }
}

/// The content with the `activate` flag set, and the `last_modified` /
/// `last_modified_by` bookkeeping lines updated if present. All other lines
/// are preserved byte-for-byte; every line keeps its line end.
pub fn set_activate(content: &str, path: &str, activate: bool, now: &str, user: &str) -> (r: Result<
    String,
    String,
>)
    ensures
        match r {
            Ok(new) => {
                &&& contents(pairs(text::lines_of(content@))) is Some
                &&& new@ == text::joined(
                    rewritten_all(parts(content@), "activate"@, activate, now@, user@),
                    "\n"@,
                )
            },
            Err(message) => contents(pairs(text::lines_of(content@))) is None && message@
                == no_flag(path@),
        },
        match r {
            Ok(new) => activated(content@, activate, now@, user@) == Some(new@),
            Err(_) => activated(content@, activate, now@, user@) is None,
        },
{
    let lines = text::split(content, Class::Not('\n'));
    let (out, there) = rewrite(&lines, "activate", activate, now, user);
    proof {
        lemma_pairs_of_parts(content@);
    }
    if !there {
        return Err(text::cat2("no 'activate' flag found in ", path));
    }
    Ok(text::join(&out, "\n"))
}

/// The text of a file with an opt-in switched on or off.
pub open spec fn opted_in(content: Text, key: Text, on: bool, now: Text, user: Text) -> Text {
    text::joined(opted(parts(content), key, on, now, user), "\n"@)
}

/// The content with an opt-in flag set; its line is added when the file
/// lacks it. All other lines but the bookkeeping are preserved byte-for-byte.
pub fn set_opt_in(content: &str, key: &str, on: bool, now: &str, user: &str) -> (r: String)
    ensures
        r@ == text::joined(opted(parts(content@), key@, on, now@, user@), "\n"@),
        r@ == opted_in(content@, key@, on, now@, user@),
{
    let lines = text::split(content, Class::Not('\n'));
    let (mut out, there) = rewrite(&lines, key, on, now, user);
    if !there {
        let ghost all = text::texts(out@);
        proof {
            text::pieces_are_in_class(content@, Class::Not('\n'));
            assert(all.len() == parts(content@).len());
            assert(all.last() == out@.last()@);
        }
        if out[out.len() - 1].as_str().is_empty() {
            out.pop();
            assert(text::texts(out@) =~= all.drop_last());
        }
        let ghost before = text::texts(out@);
        let line = put_flag_line(key, on);
        let end = String::new();
        out.push(line);
        out.push(end);
        assert(end@ =~= Seq::empty());
        assert(text::texts(out@) =~= before.push(line@).push(end@));
    }
    text::join(&out, "\n")
}

/// The lines of the file after an opt-in flag was set: one that is added
/// comes last, and ends with a line feed.
pub open spec fn opted(lines: Seq<Text>, key: Text, on: bool, now: Text, user: Text) -> Seq<Text> {
    let out = rewritten_all(lines, key, on, now, user);
    if value_of(pairs(lines), key) is Some {
        out
    } else {
        let kept = if out.last().len() == 0 {
            out.drop_last()
        } else {
            out
        };
        kept.push(flag_line(key, on)).push(Seq::empty())
    }
}

fn terminate(lines: &Vec<String>) -> (r: String)
    requires
        lines@.len() > 0,
    ensures
        r@ == text::terminated(text::texts(lines@)),
{
    let mut out = text::join(lines, "\n");
    proof {
        text::joined_lines(text::texts(lines@));
    }
    out.push('\n');
    assert(out@ =~= text::joined(text::texts(lines@), "\n"@) + seq!['\n']);
    out
}

/// The lines of a newly written file.
pub open spec fn full_lines(
    ipts: Text,
    config_file: Text,
    activate: bool,
    rolling: bool,
    live: bool,
    now: Text,
    user: Text,
) -> Seq<Text> {
    seq![
        "user_autoreduction_config_file: "@ + config_file,
        flag_line("activate"@, activate),
        "ipts: "@ + ipts,
        time_line(now),
        user_line(user),
        flag_line("rolling_combine"@, rolling),
        flag_line("live_reduction"@, live),
    ]
}

/// The text of a whole new file.
pub open spec fn written_full(
    ipts: Text,
    config_file: Text,
    activate: bool,
    rolling: bool,
    live: bool,
    now: Text,
    user: Text,
) -> Text {
    text::terminated(full_lines(ipts, config_file, activate, rolling, live, now, user))
}

/// The content of a newly written file: the IPTS and configuration file it
/// registers, the flags, and who wrote it when.
pub fn write_full(
    ipts: &str,
    config_file: &str,
    activate: bool,
    rolling: bool,
    live: bool,
    now: &str,
    user: &str,
) -> (r: String)
    ensures
        r@ == text::terminated(
            full_lines(ipts@, config_file@, activate, rolling, live, now@, user@),
        ),
        r@ == written_full(ipts@, config_file@, activate, rolling, live, now@, user@),
{
    let mut out: Vec<String> = Vec::new();
    out.push(text::cat2("user_autoreduction_config_file: ", config_file));
    out.push(put_flag_line("activate", activate));
    out.push(text::cat2("ipts: ", ipts));
    out.push(text::cat3("last_modified: '", now, "'"));
    out.push(text::cat2("last_modified_by: ", user));
    out.push(put_flag_line("rolling_combine", rolling));
    out.push(put_flag_line("live_reduction", live));
    assert(text::texts(out@) =~= full_lines(
        ipts@,
        config_file@,
        activate,
        rolling,
        live,
        now@,
        user@,
    ));
    terminate(&out)
}

// ---------------------------------------------------------------------
// Laws

/// A key as it can stand at the start of a line.
pub open spec fn plain_key(key: Text) -> bool {
    &&& key.len() > 0
    &&& key[0] != '#'
    &&& forall|i: int| 0 <= i < key.len() ==> !text::is_space(#[trigger] key[i]) && key[i] != ':'
}

/// A line made of a key and a value gives them back.
pub proof fn line_gives_key_value(key: Text, value: Text)
    requires
        plain_key(key),
    ensures
        key_value(key + ": "@ + value) == Some((key, text::trimmed(value))),
{
    reveal_strlit(": ");
    reveal_strlit(":");
    let line = key + ": "@ + value;
    let n = key.len() as int;
    let sp = Class::Space;
    assert(line[n] == ':');
    assert(line[0] == key[0]);
    assert(!text::in_class(line[0], sp));
    let (i, j) = text::trim_bounds(line, sp);
    assert(i == 0);
    assert(j > n);
    let t = text::trimmed(line);
    assert(t =~= line.take(j));
    // The first colon ends the key.
    text::find_is_the_first(t, ":"@);
    assert(t.subrange(n, n + 1) =~= ":"@);
    assert(text::occurs_at(t, ":"@, n));
    assert forall|x: int| 0 <= x < n implies !text::occurs_at(t, ":"@, x) by {
        assert(t[x] == key[x]);
        assert(t.subrange(x, x + 1)[0] == key[x]);
    }
    match text::find(t, ":"@) {
        Some(x) => {
            assert(x == n);
        },
        None => {},
    }
    assert(t.take(n) =~= key);
    text::trimmed_already(key, sp);
    let rest = t.skip(n + 1);
    let tail = line.skip(j);
    let whole = line.skip(n + 1);
    assert(whole =~= seq![' '] + value);
    assert(whole =~= rest + tail);
    let none = Seq::<char>::empty();
    text::trimmed_ignores_ends(none, rest, tail, sp);
    assert(none + rest + tail =~= whole);
    text::trimmed_ignores_ends(seq![' '], value, none, sp);
    assert(seq![' '] + value + none =~= whole);
}

/// The values of a flag line.
proof fn lemma_flag_line(key: Text, on: bool)
    requires
        plain_key(key),
    ensures
        key_value(flag_line(key, on)) is Some,
        (key_value(flag_line(key, on))->0).0 == key,
        truthy((key_value(flag_line(key, on))->0).1) == on,
        text::all_in(key, Class::Not('\n')) ==> text::all_in(flag_line(key, on), Class::Not('\n')),
{
    reveal_strlit(": ");
    reveal_strlit("true");
    reveal_strlit("false");
    reveal_strlit("1");
    reveal_strlit("yes");
    reveal_strlit("on");
    let value = if on {
        "true"@
    } else {
        "false"@
    };
    line_gives_key_value(key, value);
    text::trimmed_already(value, Class::Space);
    text::trimmed_already(value, Class::Quote);
    assert(text::lowered(value) =~= value);
    if !on {
        assert(value.len() == 5);
    }
    let line = flag_line(key, on);
    if text::all_in(key, Class::Not('\n')) {
        assert forall|i: int| 0 <= i < line.len() implies text::in_class(
            #[trigger] line[i],
            Class::Not('\n'),
        ) by {
            if i < key.len() {
                assert(line[i] == key[i]);
            }
        }
    }
}

/// A carriage return at its end makes no difference to a line.
proof fn lemma_without_return(line: Text)
    ensures
        key_value(text::without_return(line)) == key_value(line),
{
    if line.len() > 0 && line.last() == '\r' {
        let none = Seq::<char>::empty();
        text::trimmed_ignores_ends(none, line.drop_last(), seq!['\r'], Class::Space);
        assert(none + line.drop_last() + seq!['\r'] =~= line);
    }
}

proof fn lemma_pairs_without_return(lines: Seq<Text>)
    ensures
        pairs(lines.map_values(|l: Text| text::without_return(l))) == pairs(lines),
    decreases lines.len(),
{
    if lines.len() > 0 {
        let m = lines.map_values(|l: Text| text::without_return(l));
        lemma_pairs_without_return(lines.drop_last());
        assert(m.drop_last() =~= lines.drop_last().map_values(|l: Text| text::without_return(l)));
        assert(m.last() == text::without_return(lines.last()));
        lemma_without_return(lines.last());
    }
}

/// Written lines read back as their pairs.
pub proof fn written_lines_read_back(lines: Seq<Text>)
    requires
        text::single_lines(lines),
    ensures
        pairs(text::lines_of(text::terminated(lines))) == pairs(lines),
{
    text::terminated_lines_read_back(lines);
    lemma_pairs_without_return(lines);
}

/// A file reads the same by its lines and by what stands between its line
/// feeds.
proof fn lemma_pairs_of_parts(content: Text)
    ensures
        parts(content).len() > 0,
        pairs(text::lines_of(content)) == pairs(parts(content)),
{
    let ps = parts(content);
    text::pieces_are_in_class(content, Class::Not('\n'));
    let whole = ps.drop_last().map_values(|p: Text| text::without_return(p));
    lemma_pairs_without_return(ps.drop_last());
    if ps.last().len() == 0 {
        text::trimmed_already(ps.last(), Class::Space);
        assert(key_value(ps.last()) is None);
    } else {
        assert(text::lines_of(content) == whole.push(ps.last()));
        assert(whole.push(ps.last()).drop_last() =~= whole);
    }
}

/// Setting a flag touches no line but the flag's own and the bookkeeping
/// ones: the others stay as they are, in their places, comments, blank lines
/// and line ends too. What stands between the line feeds of a file, joined
/// by line feeds, is the file.
pub proof fn other_lines_are_kept(
    content: Text,
    key: Text,
    on: bool,
    now: Text,
    user: Text,
    i: int,
)
    requires
        0 <= i < parts(content).len(),
        key_value(parts(content)[i]) matches Some((k, _)) ==> k != key && k != "last_modified"@ && k
            != "last_modified_by"@,
    ensures
        text::joined(parts(content), "\n"@) == content,
        rewritten_all(parts(content), key, on, now, user).len() == parts(content).len(),
        rewritten_all(parts(content), key, on, now, user)[i] == parts(content)[i],
        opted(parts(content), key, on, now, user)[i] == parts(content)[i] || i == parts(
            content,
        ).len() - 1 && parts(content)[i].len() == 0,
{
    text::parts_make_the_text(content);
}

/// A carriage return put at the end of a line makes no difference to it.
proof fn lemma_in_place_of(line: Text, old_line: Text)
    ensures
        key_value(in_place_of(line, old_line)) == key_value(line),
        text::all_in(line, Class::Not('\n')) ==> text::all_in(
            in_place_of(line, old_line),
            Class::Not('\n'),
        ),
{
    lemma_without_return(line.push('\r'));
    assert(line.push('\r').drop_last() =~= line);
}

/// The pair of a line after the flag `key` was set.
pub open spec fn set_pair(p: (Text, Text), key: Text, on: bool, now: Text, user: Text) -> (Text, Text) {
    if p.0 == key {
        (p.0, if on {
            "true"@
        } else {
            "false"@
        })
    } else if p.0 == "last_modified"@ {
        (p.0, "'"@ + now + "'"@)
    } else if p.0 == "last_modified_by"@ {
        (p.0, text::trimmed(user))
    } else {
        p
    }
}

proof fn lemma_rewritten(line: Text, key: Text, on: bool, now: Text, user: Text)
    requires
        plain_key(key),
    ensures
        match key_value(line) {
            Some(p) => key_value(rewritten(line, key, on, now, user)) == Some(
                set_pair(p, key, on, now, user),
            ),
            None => rewritten(line, key, on, now, user) == line,
        },
{
    lemma_in_place_of(flag_line(key, on), line);
    lemma_in_place_of(time_line(now), line);
    lemma_in_place_of(user_line(user), line);
    match key_value(line) {
        Some(p) => {
            if p.0 == key {
                let value = if on {
                    "true"@
                } else {
                    "false"@
                };
                line_gives_key_value(key, value);
                reveal_strlit("true");
                reveal_strlit("false");
                text::trimmed_already(value, Class::Space);
            } else if p.0 == "last_modified"@ {
                reveal_strlit("last_modified");
                reveal_strlit("last_modified: '");
                reveal_strlit(": ");
                reveal_strlit("'");
                let value = "'"@ + now + "'"@;
                line_gives_key_value("last_modified"@, value);
                assert("last_modified"@ + ": "@ + value =~= time_line(now));
                text::trimmed_already(value, Class::Space);
            } else if p.0 == "last_modified_by"@ {
                reveal_strlit("last_modified_by");
                reveal_strlit("last_modified_by: ");
                reveal_strlit(": ");
                line_gives_key_value("last_modified_by"@, user);
                assert("last_modified_by"@ + ": "@ + user =~= user_line(user));
            }
        },
        None => {},
    }
}

proof fn lemma_rewritten_pairs(lines: Seq<Text>, key: Text, on: bool, now: Text, user: Text)
    requires
        plain_key(key),
    ensures
        pairs(rewritten_all(lines, key, on, now, user)) == pairs(lines).map_values(
            |p: (Text, Text)| set_pair(p, key, on, now, user),
        ),
    decreases lines.len(),
{
    let f = |p: (Text, Text)| set_pair(p, key, on, now, user);
    let out = rewritten_all(lines, key, on, now, user);
    if lines.len() > 0 {
        lemma_rewritten_pairs(lines.drop_last(), key, on, now, user);
        assert(out.drop_last() =~= rewritten_all(lines.drop_last(), key, on, now, user));
        assert(out.last() == rewritten(lines.last(), key, on, now, user));
        lemma_rewritten(lines.last(), key, on, now, user);
        match key_value(lines.last()) {
            Some(p) => {
                assert(pairs(lines).map_values(f) =~= pairs(lines.drop_last()).map_values(f).push(
                    f(p),
                ));
            },
            None => {
                assert(pairs(lines).map_values(f) =~= pairs(lines.drop_last()).map_values(f));
            },
        }
    } else {
        assert(pairs(lines).map_values(f) =~= Seq::empty());
    }
}

proof fn lemma_rewritten_single(lines: Seq<Text>, key: Text, on: bool, now: Text, user: Text)
    requires
        plain_key(key),
        text::single_lines(lines),
        text::all_in(now, Class::Not('\n')),
        text::all_in(user, Class::Not('\n')),
    ensures
        text::single_lines(rewritten_all(lines, key, on, now, user)),
{
    let k = Class::Not('\n');
    assert(text::all_in(key, k)) by {
        assert forall|i: int| 0 <= i < key.len() implies text::in_class(#[trigger] key[i], k) by {
            assert(!text::is_space(key[i]));
        }
    }
    lemma_flag_line(key, on);
    reveal_strlit("last_modified: '");
    reveal_strlit("last_modified_by: ");
    reveal_strlit("'");
    let a = time_line(now);
    let b = user_line(user);
    assert forall|i: int| 0 <= i < a.len() implies text::in_class(#[trigger] a[i], k) by {
        if 16 <= i < 16 + now.len() {
            assert(a[i] == now[i - 16]);
        }
    }
    assert forall|i: int| 0 <= i < b.len() implies text::in_class(#[trigger] b[i], k) by {
        if 18 <= i {
            assert(b[i] == user[i - 18]);
        }
    }
    let out = rewritten_all(lines, key, on, now, user);
    assert forall|i: int| 0 <= i < out.len() implies text::all_in(#[trigger] out[i], k) by {
        assert(out[i] == rewritten(lines[i], key, on, now, user));
        assert(text::all_in(lines[i], k));
        lemma_in_place_of(flag_line(key, on), lines[i]);
        lemma_in_place_of(a, lines[i]);
        lemma_in_place_of(b, lines[i]);
    }
}

/// After `set_activate` the file reads back with the flag as it was set, the
/// opt-ins as they were, and every other entry as it was but for the
/// bookkeeping.
pub proof fn set_activate_reads_back(content: Text, on: bool, now: Text, user: Text)
    requires
        contents(pairs(text::lines_of(content))) is Some,
        text::all_in(now, Class::Not('\n')),
        text::all_in(user, Class::Not('\n')),
    ensures
        ({
            let before = pairs(text::lines_of(content));
            let new = text::joined(
                rewritten_all(parts(content), "activate"@, on, now, user),
                "\n"@,
            );
            let after = pairs(text::lines_of(new));
            &&& after == before.map_values(
                |p: (Text, Text)| set_pair(p, "activate"@, on, now, user),
            )
            &&& contents(after) is Some
            &&& (contents(after)->0).activate == on
            &&& (contents(after)->0).rolling_combine == (contents(before)->0).rolling_combine
            &&& (contents(after)->0).live_reduction == (contents(before)->0).live_reduction
        }),
{
    lemma_words();
    lemma_activate_is_plain();
    let lines = parts(content);
    let before = pairs(lines);
    let out = rewritten_all(lines, "activate"@, on, now, user);
    lemma_pairs_of_parts(content);
    lemma_parts_are_single(content);
    lemma_rewritten_single(lines, "activate"@, on, now, user);
    text::joined_lines_are_parts(out);
    lemma_pairs_of_parts(text::joined(out, "\n"@));
    lemma_rewritten_pairs(lines, "activate"@, on, now, user);
    lemma_value_after(before, "activate"@, "activate"@, on, now, user);
    lemma_value_after(before, "activate"@, "rolling_combine"@, on, now, user);
    lemma_value_after(before, "activate"@, "live_reduction"@, on, now, user);
}

proof fn lemma_parts_are_single(content: Text)
    ensures
        text::single_lines(parts(content)),
{
    text::pieces_are_in_class(content, Class::Not('\n'));
}

proof fn lemma_activate_is_plain()
    ensures
        plain_key("activate"@),
{
    reveal_strlit("activate");
}

/// The words of the flags differ from each other and from the bookkeeping.
proof fn lemma_words()
    ensures
        plain_key("rolling_combine"@),
        plain_key("live_reduction"@),
        "activate"@ != "rolling_combine"@,
        "activate"@ != "live_reduction"@,
        "rolling_combine"@ != "live_reduction"@,
        "activate"@ != "last_modified"@,
        "activate"@ != "last_modified_by"@,
        "rolling_combine"@ != "last_modified"@,
        "rolling_combine"@ != "last_modified_by"@,
        "live_reduction"@ != "last_modified"@,
        "live_reduction"@ != "last_modified_by"@,
        truthy("true"@),
        !truthy("false"@),
{
    reveal_strlit("activate");
    reveal_strlit("rolling_combine");
    reveal_strlit("live_reduction");
    reveal_strlit("last_modified");
    reveal_strlit("last_modified_by");
    assert("activate"@[0] == 'a' && "rolling_combine"@[0] == 'r' && "live_reduction"@[0] == 'l');
    assert("live_reduction"@[1] == 'i' && "last_modified"@[1] == 'a' && "last_modified_by"@[1] == 'a');
    assert("last_modified"@[0] == 'l' && "last_modified_by"@[0] == 'l');
    lemma_activate_is_plain();
    line_gives_key_value("activate"@, "true"@);
    line_gives_key_value("activate"@, "false"@);
    lemma_flag_line("activate"@, true);
    lemma_flag_line("activate"@, false);
    reveal_strlit("true");
    reveal_strlit("false");
    text::trimmed_already("true"@, Class::Space);
    text::trimmed_already("false"@, Class::Space);
}

/// What setting one flag does to a flag's value.
proof fn lemma_value_after(
    ps: Seq<(Text, Text)>,
    key: Text,
    other: Text,
    on: bool,
    now: Text,
    user: Text,
)
    requires
        other != "last_modified"@,
        other != "last_modified_by"@,
    ensures
        value_of(
            ps.map_values(|p: (Text, Text)| set_pair(p, key, on, now, user)),
            other,
        ) == (if other == key && value_of(ps, other) is Some {
            Some(if on {
                "true"@
            } else {
                "false"@
            })
        } else {
            value_of(ps, other)
        }),
    decreases ps.len(),
{
    let f = |p: (Text, Text)| set_pair(p, key, on, now, user);
    let out = ps.map_values(f);
    if ps.len() > 0 {
        lemma_value_after(ps.drop_last(), key, other, on, now, user);
        assert(out.drop_last() =~= ps.drop_last().map_values(f));
        assert(out.last() == f(ps.last()));
    }
}

/// The pairs of a file after an opt-in flag was set.
proof fn lemma_opted_pairs(content: Text, key: Text, on: bool, now: Text, user: Text)
    requires
        plain_key(key),
        text::all_in(now, Class::Not('\n')),
        text::all_in(user, Class::Not('\n')),
    ensures
        ({
            let before = pairs(text::lines_of(content));
            let set = before.map_values(|p: (Text, Text)| set_pair(p, key, on, now, user));
            pairs(text::lines_of(text::joined(opted(parts(content), key, on, now, user), "\n"@)))
                == (if value_of(before, key) is Some {
                set
            } else {
                set.push(key_value(flag_line(key, on))->0)
            })
        }),
{
    lemma_words();
    let lines = parts(content);
    let before = pairs(lines);
    let base = rewritten_all(lines, key, on, now, user);
    let all = opted(lines, key, on, now, user);
    lemma_pairs_of_parts(content);
    lemma_parts_are_single(content);
    lemma_rewritten_single(lines, key, on, now, user);
    lemma_flag_line(key, on);
    assert(text::all_in(key, Class::Not('\n'))) by {
        assert forall|i: int| 0 <= i < key.len() implies text::in_class(
            #[trigger] key[i],
            Class::Not('\n'),
        ) by {
            assert(!text::is_space(key[i]));
        }
    }
    assert(text::single_lines(all)) by {
        assert forall|i: int| 0 <= i < all.len() implies text::all_in(
            #[trigger] all[i],
            Class::Not('\n'),
        ) by {
            if i < base.len() {
                assert(text::all_in(base[i], Class::Not('\n')));
            }
        }
    }
    text::joined_lines_are_parts(all);
    lemma_pairs_of_parts(text::joined(all, "\n"@));
    lemma_rewritten_pairs(lines, key, on, now, user);
    if value_of(before, key) is None {
        let none = Seq::<char>::empty();
        text::trimmed_already(none, Class::Space);
        assert(key_value(none) is None);
        let kept = if base.last().len() == 0 {
            base.drop_last()
        } else {
            base
        };
        if base.last().len() == 0 {
            assert(base.last() =~= none);
            assert(pairs(base) == pairs(kept));
        }
        let line = flag_line(key, on);
        lemma_pairs_push(kept, line, key_value(line)->0);
        assert(all.drop_last() =~= kept.push(line));
        assert(all.last() == none);
        assert(pairs(all) == pairs(kept.push(line)));
    }
}

/// After an opt-in flag was set the file reads back with it as it was set and
/// every other value but the bookkeeping as it was, whether the flag's line
/// was there before or not.
pub proof fn set_opt_in_reads_back(
    content: Text,
    key: Text,
    other: Text,
    on: bool,
    now: Text,
    user: Text,
)
    requires
        plain_key(key),
        other != "last_modified"@,
        other != "last_modified_by"@,
        text::all_in(now, Class::Not('\n')),
        text::all_in(user, Class::Not('\n')),
    ensures
        ({
            let before = pairs(text::lines_of(content));
            let after = pairs(
                text::lines_of(
                    text::joined(opted(parts(content), key, on, now, user), "\n"@),
                ),
            );
            if other == key {
                flag(after, other) == Some(on)
            } else {
                value_of(after, other) == value_of(before, other)
            }
        }),
{
    lemma_words();
    let before = pairs(text::lines_of(content));
    let set = before.map_values(|p: (Text, Text)| set_pair(p, key, on, now, user));
    lemma_opted_pairs(content, key, on, now, user);
    lemma_value_after(before, key, other, on, now, user);
    if value_of(before, key) is None {
        lemma_flag_line(key, on);
        let added = set.push(key_value(flag_line(key, on))->0);
        assert(added.drop_last() =~= set);
    }
}

/// After an opt-in flag was set the file says when that was and who did it,
/// where it said so before.
pub proof fn set_opt_in_is_signed(content: Text, key: Text, on: bool, now: Text, user: Text)
    requires
        plain_key(key),
        key != "last_modified"@,
        key != "last_modified_by"@,
        text::all_in(now, Class::Not('\n')),
        text::all_in(user, Class::Not('\n')),
    ensures
        value_in(content, "last_modified"@) is Some ==> value_in(
            opted_in(content, key, on, now, user),
            "last_modified"@,
        ) == Some("'"@ + now + "'"@),
        value_in(content, "last_modified_by"@) is Some ==> value_in(
            opted_in(content, key, on, now, user),
            "last_modified_by"@,
        ) == Some(text::trimmed(user)),
{
    let before = pairs(text::lines_of(content));
    let set = before.map_values(|p: (Text, Text)| set_pair(p, key, on, now, user));
    lemma_opted_pairs(content, key, on, now, user);
    lemma_signed_pairs(before, key, on, now, user);
    if value_of(before, key) is None {
        lemma_flag_line(key, on);
        let added = set.push(key_value(flag_line(key, on))->0);
        assert(added.drop_last() =~= set);
    }
}

/// After `set_activate` the file says when that was and who did it, where it
/// said so before.
pub proof fn set_activate_is_signed(content: Text, on: bool, now: Text, user: Text)
    requires
        reading(content) is Some,
        text::all_in(now, Class::Not('\n')),
        text::all_in(user, Class::Not('\n')),
    ensures
        activated(content, on, now, user) matches Some(new) && {
            &&& value_in(content, "last_modified"@) is Some ==> value_in(new, "last_modified"@)
                == Some("'"@ + now + "'"@)
            &&& value_in(content, "last_modified_by"@) is Some ==> value_in(
                new,
                "last_modified_by"@,
            ) == Some(text::trimmed(user))
        },
{
    reveal_strlit("activate");
    reveal_strlit("last_modified");
    reveal_strlit("last_modified_by");
    assert("activate"@[0] == 'a' && "last_modified"@[0] == 'l' && "last_modified_by"@[0] == 'l');
    set_activate_reads_back(content, on, now, user);
    lemma_signed_pairs(pairs(text::lines_of(content)), "activate"@, on, now, user);
}

proof fn lemma_signed_pairs(ps: Seq<(Text, Text)>, key: Text, on: bool, now: Text, user: Text)
    requires
        key != "last_modified"@,
        key != "last_modified_by"@,
    ensures
        ({
            let set = ps.map_values(|p: (Text, Text)| set_pair(p, key, on, now, user));
            &&& value_of(ps, "last_modified"@) is Some ==> value_of(set, "last_modified"@) == Some(
                "'"@ + now + "'"@,
            )
            &&& value_of(ps, "last_modified_by"@) is Some ==> value_of(set, "last_modified_by"@)
                == Some(text::trimmed(user))
        }),
    decreases ps.len(),
{
    let f = |p: (Text, Text)| set_pair(p, key, on, now, user);
    let set = ps.map_values(f);
    reveal_strlit("last_modified");
    reveal_strlit("last_modified_by");
    if ps.len() > 0 {
        lemma_signed_pairs(ps.drop_last(), key, on, now, user);
        assert(set.drop_last() =~= ps.drop_last().map_values(f));
        assert(set.last() == f(ps.last()));
        assert("last_modified"@.len() != "last_modified_by"@.len());
    }
}

proof fn lemma_pairs_push(lines: Seq<Text>, line: Text, p: (Text, Text))
    requires
        key_value(line) == Some(p),
    ensures
        pairs(lines.push(line)) == pairs(lines).push(p),
        forall|key: Text| #[trigger]
            value_of(pairs(lines.push(line)), key) == (if p.0 == key {
                Some(p.1)
            } else {
                value_of(pairs(lines), key)
            }),
{
    assert(lines.push(line).drop_last() =~= lines);
    let ps = pairs(lines);
    assert(ps.push(p).drop_last() =~= ps);
}

/// The values in a newly written file.
proof fn lemma_full_values(
    ipts: Text,
    config_file: Text,
    activate: bool,
    rolling: bool,
    live: bool,
    now: Text,
    user: Text,
    key: Text,
)
    requires
        text::all_in(ipts, Class::Not('\n')),
        text::all_in(config_file, Class::Not('\n')),
        text::all_in(now, Class::Not('\n')),
        text::all_in(user, Class::Not('\n')),
    ensures
        ({
            let lines = full_lines(ipts, config_file, activate, rolling, live, now, user);
            let ps = pairs(text::lines_of(text::terminated(lines)));
            value_of(ps, key) == (if key == "live_reduction"@ {
                Some((key_value(flag_line("live_reduction"@, live))->0).1)
            } else if key == "rolling_combine"@ {
                Some((key_value(flag_line("rolling_combine"@, rolling))->0).1)
            } else if key == "last_modified_by"@ {
                Some(text::trimmed(user))
            } else if key == "last_modified"@ {
                Some(text::trimmed("'"@ + now + "'"@))
            } else if key == "ipts"@ {
                Some(text::trimmed(ipts))
            } else if key == "activate"@ {
                Some((key_value(flag_line("activate"@, activate))->0).1)
            } else if key == "user_autoreduction_config_file"@ {
                Some(text::trimmed(config_file))
            } else {
                None
            })
        }),
{
    let k = Class::Not('\n');
    let lines = full_lines(ipts, config_file, activate, rolling, live, now, user);
    lemma_words();
    lemma_activate_is_plain();
    reveal_strlit("activate");
    reveal_strlit("rolling_combine");
    reveal_strlit("live_reduction");
    reveal_strlit("user_autoreduction_config_file");
    reveal_strlit("user_autoreduction_config_file: ");
    reveal_strlit("ipts");
    reveal_strlit("ipts: ");
    reveal_strlit("last_modified");
    reveal_strlit("last_modified: '");
    reveal_strlit("last_modified_by");
    reveal_strlit("last_modified_by: ");
    reveal_strlit(": ");
    reveal_strlit("'");
    lemma_flag_line("activate"@, activate);
    lemma_flag_line("rolling_combine"@, rolling);
    lemma_flag_line("live_reduction"@, live);
    let file_key = "user_autoreduction_config_file"@;
    line_gives_key_value(file_key, config_file);
    assert(file_key + ": "@ + config_file =~= lines[0]);
    line_gives_key_value("ipts"@, ipts);
    assert("ipts"@ + ": "@ + ipts =~= lines[2]);
    line_gives_key_value("last_modified"@, "'"@ + now + "'"@);
    assert("last_modified"@ + ": "@ + ("'"@ + now + "'"@) =~= lines[3]);
    line_gives_key_value("last_modified_by"@, user);
    assert("last_modified_by"@ + ": "@ + user =~= lines[4]);
    assert(text::single_lines(lines)) by {
        let l0 = lines[0];
        assert forall|i: int| 0 <= i < l0.len() implies text::in_class(#[trigger] l0[i], k) by {
            if i >= 32 {
                assert(l0[i] == config_file[i - 32]);
            }
        }
        let l2 = lines[2];
        assert forall|i: int| 0 <= i < l2.len() implies text::in_class(#[trigger] l2[i], k) by {
            if i >= 6 {
                assert(l2[i] == ipts[i - 6]);
            }
        }
        let l3 = lines[3];
        assert forall|i: int| 0 <= i < l3.len() implies text::in_class(#[trigger] l3[i], k) by {
            if 16 <= i < 16 + now.len() {
                assert(l3[i] == now[i - 16]);
            }
        }
        let l4 = lines[4];
        assert forall|i: int| 0 <= i < l4.len() implies text::in_class(#[trigger] l4[i], k) by {
            if 18 <= i {
                assert(l4[i] == user[i - 18]);
            }
        }
    }
    written_lines_read_back(lines);
    let s0 = Seq::<Text>::empty();
    let s1 = s0.push(lines[0]);
    let s2 = s1.push(lines[1]);
    let s3 = s2.push(lines[2]);
    let s4 = s3.push(lines[3]);
    let s5 = s4.push(lines[4]);
    let s6 = s5.push(lines[5]);
    let s7 = s6.push(lines[6]);
    assert(s7 =~= lines);
    lemma_pairs_push(s0, lines[0], key_value(lines[0])->0);
    lemma_pairs_push(s1, lines[1], key_value(lines[1])->0);
    lemma_pairs_push(s2, lines[2], key_value(lines[2])->0);
    lemma_pairs_push(s3, lines[3], key_value(lines[3])->0);
    lemma_pairs_push(s4, lines[4], key_value(lines[4])->0);
    lemma_pairs_push(s5, lines[5], key_value(lines[5])->0);
    lemma_pairs_push(s6, lines[6], key_value(lines[6])->0);
}

/// A newly written file reads back with the flags, the IPTS and the
/// configuration file it was written with, and with who wrote it when.
pub proof fn write_full_reads_back(
    ipts: Text,
    config_file: Text,
    activate: bool,
    rolling: bool,
    live: bool,
    now: Text,
    user: Text,
)
    requires
        text::all_in(ipts, Class::Not('\n')),
        text::all_in(config_file, Class::Not('\n')),
        text::all_in(now, Class::Not('\n')),
        text::all_in(user, Class::Not('\n')),
    ensures
        ({
            let lines = full_lines(ipts, config_file, activate, rolling, live, now, user);
            let ps = pairs(text::lines_of(text::terminated(lines)));
            &&& flag(ps, "activate"@) == Some(activate)
            &&& flag(ps, "rolling_combine"@) == Some(rolling)
            &&& flag(ps, "live_reduction"@) == Some(live)
            &&& value_of(ps, "ipts"@) == Some(text::trimmed(ipts))
            &&& value_of(ps, "user_autoreduction_config_file"@) == Some(text::trimmed(config_file))
            &&& value_of(ps, "last_modified"@) == Some("'"@ + now + "'"@)
            &&& value_of(ps, "last_modified_by"@) == Some(text::trimmed(user))
        }),
{
    lemma_words();
    lemma_activate_is_plain();
    lemma_flag_line("activate"@, activate);
    lemma_flag_line("rolling_combine"@, rolling);
    lemma_flag_line("live_reduction"@, live);
    reveal_strlit("activate");
    reveal_strlit("rolling_combine");
    reveal_strlit("live_reduction");
    reveal_strlit("user_autoreduction_config_file");
    reveal_strlit("ipts");
    reveal_strlit("last_modified");
    reveal_strlit("last_modified_by");
    reveal_strlit("'");
    let file_key = "user_autoreduction_config_file"@;
    lemma_full_values(ipts, config_file, activate, rolling, live, now, user, "activate"@);
    lemma_full_values(ipts, config_file, activate, rolling, live, now, user, "rolling_combine"@);
    lemma_full_values(ipts, config_file, activate, rolling, live, now, user, "live_reduction"@);
    lemma_full_values(ipts, config_file, activate, rolling, live, now, user, "ipts"@);
    lemma_full_values(ipts, config_file, activate, rolling, live, now, user, file_key);
    lemma_full_values(ipts, config_file, activate, rolling, live, now, user, "last_modified"@);
    lemma_full_values(ipts, config_file, activate, rolling, live, now, user, "last_modified_by"@);
    assert(file_key[0] == 'u' && "ipts"@[0] == 'i');
    assert("activate"@[0] == 'a' && "rolling_combine"@[0] == 'r' && "live_reduction"@[0] == 'l');
    assert("last_modified"@[0] == 'l' && "last_modified_by"@[0] == 'l');
    assert("last_modified"@[1] == 'a' && "last_modified_by"@[1] == 'a');
    assert("live_reduction"@[1] == 'i');
    assert("last_modified"@.len() != "last_modified_by"@.len());
    text::trimmed_already("'"@ + now + "'"@, Class::Space);
}

} // verus!
