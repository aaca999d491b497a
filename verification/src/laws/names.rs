//! What is read out of the names of runs and lists of runs.

use vstd::prelude::*;
use crate::text::{Class, Text};
use crate::{files, number, paths, text};

verus! {

/// A text is found where it first occurs.
pub proof fn texts_are_found_where_they_first_occur(s: Text, pat: Text, i: int)
    requires
        text::occurs_at(s, pat, i),
        forall|k: int| 0 <= k < i ==> !(#[trigger] text::occurs_at(s, pat, k)),
    ensures
        text::find(s, pat) == Some(i),
{
    text::find_is_the_first(s, pat);
    assert(text::has(s, pat));
    let j = text::find(s, pat)->0;
    if j < i {
        assert(text::occurs_at(s, pat, j));
    }
    if i < j {
        assert(!text::occurs_at(s, pat, i));
    }
}

/// A folder name carries the run number that stands behind its first `Run_`,
/// up to the first character that is no digit.
pub proof fn names_carry_their_run(before: Text, run: u64, after: Text)
    requires
        after.len() > 0 ==> !('0' <= after[0] <= '9'),
        forall|k: int|
            0 <= k < before.len() ==> !(#[trigger] text::occurs_at(
                before + "Run_"@ + number::decimal(run as nat) + after,
                "Run_"@,
                k,
            )),
    ensures
        files::run_in_name(before + "Run_"@ + number::decimal(run as nat) + after) == Some(run),
{
    let d = number::decimal(run as nat);
    let s = before + "Run_"@ + d + after;
    reveal_strlit("Run_");
    number::decimal_reads_back(run);
    number::lemma_decimal(run as nat);
    let i = before.len() as int;
    assert(s.subrange(i, i + 4) =~= "Run_"@);
    texts_are_found_where_they_first_occur(s, "Run_"@, i);
    let e = i + 4 + d.len();
    assert(s.subrange(i + 4, e) =~= d);
    text::run_end_is(s, Class::Digit, i + 4, e);
}

/// A name without `Run_` carries no run number.
pub proof fn names_without_a_run_carry_none(name: Text)
    requires
        !text::has(name, "Run_"@),
    ensures
        files::run_in_name(name) is None,
        files::run_in_name("Run_"@ + name) is Some ==> name.len() > 0,
{
    text::find_is_the_first(name, "Run_"@);
    if name.len() == 0 {
        reveal_strlit("Run_");
        let s = "Run_"@ + name;
        assert(s =~= "Run_"@);
        assert(s.subrange(0, 4) =~= "Run_"@);
        texts_are_found_where_they_first_occur(s, "Run_"@, 0);
        text::run_end_is_maximal(s, Class::Digit, 4);
        assert(s.subrange(4, 4).len() == 0);
    }
}

/// The acquisition name is what stands behind the run number and its
/// underscore, without a trailing index.
pub proof fn names_carry_their_acquisition(before: Text, run: u64, kept: Text, index: Text)
    requires
        kept.len() > 0,
        !('0' <= kept.last() <= '9'),
        index.len() > 0 && text::all_in(index, Class::Digit),
        forall|k: int|
            0 <= k < before.len() ==> !(#[trigger] text::occurs_at(
                before + "_Run_"@ + number::decimal(run as nat) + "_"@ + kept + "_"@ + index,
                "_Run_"@,
                k,
            )),
        forall|k: int|
            0 <= k < before.len() ==> !(#[trigger] text::occurs_at(
                before + "_Run_"@ + number::decimal(run as nat) + "_"@ + kept,
                "_Run_"@,
                k,
            )),
    ensures
        files::acquisition(
            before + "_Run_"@ + number::decimal(run as nat) + "_"@ + kept + "_"@ + index,
        ) == Some(kept),
        files::acquisition(before + "_Run_"@ + number::decimal(run as nat) + "_"@ + kept) == Some(
            kept,
        ),
{
    let d = number::decimal(run as nat);
    reveal_strlit("_Run_");
    reveal_strlit("_");
    number::lemma_decimal(run as nat);
    let i = before.len() as int;
    let e = i + 5 + d.len();
    let a = before + "_Run_"@ + d + "_"@ + kept + "_"@ + index;
    assert(a.subrange(i, i + 5) =~= "_Run_"@);
    texts_are_found_where_they_first_occur(a, "_Run_"@, i);
    assert(a.subrange(i + 5, e) =~= d);
    text::run_end_is(a, Class::Digit, i + 5, e);
    assert(a[e] == '_');
    let ta = kept + "_"@ + index;
    assert(a.skip(e + 1) =~= ta);
    let k = kept.len() as int + 1;
    assert(ta.subrange(k, ta.len() as int) =~= index);
    assert(ta[k - 1] == '_');
    text::run_start_is(ta, Class::Digit, k, ta.len() as int);
    assert(ta.take(k - 1) =~= kept);
    let b = before + "_Run_"@ + d + "_"@ + kept;
    assert(b.subrange(i, i + 5) =~= "_Run_"@);
    texts_are_found_where_they_first_occur(b, "_Run_"@, i);
    assert(b.subrange(i + 5, e) =~= d);
    text::run_end_is(b, Class::Digit, i + 5, e);
    assert(b[e] == '_');
    assert(b.skip(e + 1) =~= kept);
    assert(kept.subrange(kept.len() as int, kept.len() as int).len() == 0);
    text::run_start_is(kept, Class::Digit, kept.len() as int, kept.len() as int);
}

/// The starting wavelength is what stands before `AngsMin`: two runs of
/// digits with an underscore between them, read as a decimal point.
pub proof fn names_carry_their_wavelength(
    before: Text,
    whole: Text,
    fraction: Text,
    after: Text,
)
    requires
        before.len() > 0 ==> !('0' <= before.last() <= '9'),
        whole.len() > 0 && text::all_in(whole, Class::Digit),
        fraction.len() > 0 && text::all_in(fraction, Class::Digit),
        forall|k: int|
            0 <= k < before.len() ==> !(#[trigger] text::occurs_at(
                before + whole + "_"@ + fraction + "AngsMin"@ + after,
                "AngsMin"@,
                k,
            )),
    ensures
        files::wavelength(before + whole + "_"@ + fraction + "AngsMin"@ + after) == Some(
            whole + "."@ + fraction,
        ),
{
    let s = before + whole + "_"@ + fraction + "AngsMin"@ + after;
    reveal_strlit("_");
    reveal_strlit(".");
    reveal_strlit("AngsMin");
    let w = before.len() as int;
    let f = w + whole.len() + 1;
    let i = f + fraction.len();
    assert(s.subrange(i, i + 7) =~= "AngsMin"@);
    assert forall|k: int| 0 <= k < i implies !(#[trigger] text::occurs_at(s, "AngsMin"@, k)) by {
        if k >= w {
            if text::occurs_at(s, "AngsMin"@, k) {
                assert(s.subrange(k, k + 7)[0] == s[k]);
                assert("AngsMin"@[0] == 'A');
                assert(s[k] == 'A');
                if k < f - 1 {
                    assert(text::in_class(whole[k - w], Class::Digit));
                } else if k >= f {
                    assert(text::in_class(fraction[k - f], Class::Digit));
                }
            }
        }
    }
    texts_are_found_where_they_first_occur(s, "AngsMin"@, i);
    assert(s.subrange(f, i) =~= fraction);
    assert(s[f - 1] == '_');
    text::run_start_is(s, Class::Digit, f, i);
    assert(s.subrange(w, f - 1) =~= whole);
    if w > 0 {
        assert(s[w - 1] == before.last());
    }
    text::run_start_is(s, Class::Digit, w, f - 1);
}

/// A single number names its own run alone, and a range names every run from
/// its first to its last and no other; a range that runs backwards, or is too
/// long, is an error.
pub proof fn ranges_name_their_runs(first: u64, last: u64, run: u64)
    ensures
        files::token_names(number::decimal(first as nat), run) <==> run == first,
        files::token_range(number::decimal(first as nat)) is Ok,
        first <= last && last - first <= 10_000 ==> (files::token_names(
            number::decimal(first as nat) + "-"@ + number::decimal(last as nat),
            run,
        ) <==> first <= run <= last),
        files::token_range(number::decimal(first as nat) + "-"@ + number::decimal(last as nat))
            is Ok <==> first <= last && last - first <= 10_000,
{
    reveal_strlit("-");
    let a = number::decimal(first as nat);
    let b = number::decimal(last as nat);
    number::lemma_decimal(first as nat);
    number::lemma_decimal(last as nat);
    number::decimal_reads_back(first);
    number::decimal_reads_back(last);
    let t = a + "-"@ + b;
    let i = a.len() as int;
    assert(t.subrange(i, i + 1) =~= "-"@);
    assert forall|k: int| 0 <= k < i implies !(#[trigger] text::occurs_at(t, "-"@, k)) by {
        if text::occurs_at(t, "-"@, k) {
            assert(t.subrange(k, k + 1)[0] == t[k]);
            assert(text::in_class(a[k], Class::Digit));
        }
    }
    texts_are_found_where_they_first_occur(t, "-"@, i);
    assert(t.take(i) =~= a);
    assert(t.skip(i + 1) =~= b);
    text::find_is_the_first(a, "-"@);
    assert forall|k: int| !(#[trigger] text::occurs_at(a, "-"@, k)) by {
        if text::occurs_at(a, "-"@, k) {
            assert(a.subrange(k, k + 1)[0] == a[k]);
            assert(text::in_class(a[k], Class::Digit));
        }
    }
    assert(text::find(a, "-"@) is None);
}

/// A list names what its parts name: joining two lists by a comma names the
/// runs of both.
pub proof fn joined_lists_name_the_runs_of_both(a: Text, b: Text, run: u64)
    ensures
        files::list_names(a + seq![','] + b, run) <==> files::list_names(a, run)
            || files::list_names(b, run),
        files::list_names(a + seq![' '] + b, run) <==> files::list_names(a, run)
            || files::list_names(b, run),
{
    text::pieces_joined(a, ',', b, Class::NotSpaceOrComma);
    text::pieces_joined(a, ' ', b, Class::NotSpaceOrComma);
    let ta = files::tokens(a);
    let tb = files::tokens(b);
    let t = ta + tb;
    assert(files::tokens(a + seq![','] + b) == t);
    assert(files::tokens(a + seq![' '] + b) == t);
    if files::list_names(a, run) {
        let i = choose|i: int| 0 <= i < ta.len() && files::token_names(#[trigger] ta[i], run);
        assert(t[i] == ta[i]);
        assert(files::token_names(t[i], run));
    }
    if files::list_names(b, run) {
        let i = choose|i: int| 0 <= i < tb.len() && files::token_names(#[trigger] tb[i], run);
        assert(t[ta.len() + i] == tb[i]);
        assert(files::token_names(t[ta.len() + i], run));
    }
    if exists|i: int| 0 <= i < t.len() && files::token_names(#[trigger] t[i], run) {
        let i = choose|i: int| 0 <= i < t.len() && files::token_names(#[trigger] t[i], run);
        if i < ta.len() {
            assert(files::token_names(ta[i], run));
        } else {
            assert(files::token_names(tb[i - ta.len()], run));
        }
    }
}

/// A list without a token that is in error has no error, and one token in
/// error spoils the list.
pub proof fn one_bad_token_spoils_the_list(tokens: Seq<Text>, i: int)
    requires
        0 <= i,
    ensures
        files::first_error(tokens, i) is Some <==> exists|k: int|
            i <= k < tokens.len() && (#[trigger] tokens[k]).len() > 0 && files::token_range(
                tokens[k],
            ) is Err,
    decreases tokens.len() - i,
{
    if i < tokens.len() {
        one_bad_token_spoils_the_list(tokens, i + 1);
        if tokens[i].len() > 0 && files::token_range(tokens[i]) is Err {
            assert(files::first_error(tokens, i) is Some);
        } else {
            assert(files::first_error(tokens, i) == files::first_error(tokens, i + 1));
            if exists|k: int|
                i <= k < tokens.len() && (#[trigger] tokens[k]).len() > 0 && files::token_range(
                    tokens[k],
                ) is Err {
                let k = choose|k: int|
                    i <= k < tokens.len() && (#[trigger] tokens[k]).len() > 0
                        && files::token_range(tokens[k]) is Err;
                assert(k >= i + 1);
            }
        }
    }
}

/// The listed runs are those with a NeXus file: a run is listed exactly when
/// one of the names is that of its file.
pub proof fn listed_runs_have_a_file(names: Seq<Text>, run: u64)
    ensures
        files::nexus_runs(names).contains(run) <==> exists|i: int|
            0 <= i < names.len() && files::nexus_run(#[trigger] names[i]) == Some(run),
        files::nexus_run("VENUS_"@ + number::decimal(run as nat) + ".nxs.h5"@) == Some(run),
        files::nexus_runs(names).len() <= names.len(),
    decreases names.len(),
{
    let own = "VENUS_"@ + number::decimal(run as nat) + ".nxs.h5"@;
    reveal_strlit("VENUS_");
    reveal_strlit(".nxs.h5");
    number::decimal_reads_back(run);
    assert(own.subrange(0, 6) =~= "VENUS_"@);
    let rest = own.skip(6);
    assert(rest =~= number::decimal(run as nat) + ".nxs.h5"@);
    assert(rest.subrange(rest.len() - 7, rest.len() as int) =~= ".nxs.h5"@);
    assert(rest.take(rest.len() - 7) =~= number::decimal(run as nat));
    if names.len() > 0 {
        let front = names.drop_last();
        listed_runs_have_a_file(front, run);
        let before = files::nexus_runs(front);
        let all = files::nexus_runs(names);
        if exists|i: int| 0 <= i < names.len() && files::nexus_run(#[trigger] names[i]) == Some(
            run,
        ) {
            let i = choose|i: int|
                0 <= i < names.len() && files::nexus_run(#[trigger] names[i]) == Some(run);
            if i < front.len() {
                assert(front[i] == names[i]);
                let j = choose|j: int| 0 <= j < before.len() && before[j] == run;
                assert(all[j] == run);
            } else {
                assert(all.last() == run);
            }
        }
        if all.contains(run) {
            let j = choose|j: int| 0 <= j < all.len() && all[j] == run;
            if j < before.len() {
                assert(before[j] == run);
                let i = choose|i: int|
                    0 <= i < front.len() && files::nexus_run(#[trigger] front[i]) == Some(run);
                assert(names[i] == front[i]);
            } else {
                assert(files::nexus_run(names[names.len() - 1]) == Some(run));
            }
        }
    }
}

/// The NeXus file of a run lies in the `nexus` folder of its proposal, under
/// the run's number; raw images lie under `images`, corrected ones under the
/// reduction's own folder.
pub proof fn runs_lie_in_their_proposal(ipts: Text, run: u64)
    ensures
        files::nexus_file(ipts, run) == paths::below(
            ipts,
            "nexus/VENUS_"@ + number::decimal(run as nat) + ".nxs.h5"@,
        ),
        files::raw_root(ipts) == paths::below(ipts, "images"@),
        files::corrected_root(ipts) == paths::below(ipts, "shared/autoreduce/images"@),
{
    reveal_strlit("nexus/");
    reveal_strlit("VENUS_");
    reveal_strlit("nexus/VENUS_");
    let d = number::decimal(run as nat);
    assert("nexus/"@ + ("VENUS_"@ + d + ".nxs.h5"@) =~= "nexus/VENUS_"@ + d + ".nxs.h5"@);
}

/// Lower case leaves everything but the capitals A to Z as it is, and takes
/// those to their small letters.
pub proof fn lower_case_changes_capitals_only(s: Text, i: int)
    requires
        0 <= i < s.len(),
    ensures
        text::lowered(s).len() == s.len(),
        !('A' <= s[i] <= 'Z') ==> text::lowered(s)[i] == s[i],
        'A' <= s[i] <= 'Z' ==> text::lowered(s)[i] as u32 == s[i] as u32 + 32,
        text::lowered(text::lowered(s)) == text::lowered(s),
{
    let t = text::lowered(s);
    assert forall|k: int| 0 <= k < t.len() implies #[trigger] text::lowered(t)[k] == t[k] by {
        assert(t[k] == text::lower(s[k]));
    }
    assert(text::lowered(t) =~= t);
}

/// Two digits are always two digits, of the same value.
pub proof fn two_digits_keep_the_value(n: nat)
    requires
        n < 100,
    ensures
        number::two_digits(n).len() == 2,
        number::value(number::two_digits(n)) == n,
{
    reveal_with_fuel(number::decimal, 3);
    reveal_with_fuel(number::value, 4);
    number::lemma_decimal(n);
    let d = number::decimal(n);
    if n < 10 {
        let t = seq!['0'] + d;
        assert(d.len() == 1);
        assert(t.drop_last() =~= seq!['0']);
        assert(t.drop_last().drop_last() =~= Seq::<char>::empty());
        assert(d.drop_last() =~= Seq::<char>::empty());
    }
}

/// A path is joined with one slash between, an absolute one stands for
/// itself, and nothing before a path leaves it as it is.
pub proof fn paths_are_joined_by_one_slash(base: Text, rest: Text)
    requires
        rest.len() > 0,
    ensures
        rest[0] == '/' ==> paths::below(base, rest) == rest,
        rest[0] != '/' && base.len() > 0 && base.last() != '/' ==> paths::below(base, rest) == base
            + seq!['/'] + rest,
        rest[0] != '/' && base.len() > 0 && base.last() == '/' ==> paths::below(base, rest) == base
            + rest,
        rest[0] != '/' ==> paths::below(Seq::empty(), rest) == rest,
{
    assert(base.push('/') + rest =~= base + seq!['/'] + rest);
    assert(Seq::<char>::empty() + rest =~= rest);
}

/// A number is digits, with at most a plus sign before them, and no larger
/// than can be held; nothing else is one.
pub proof fn numbers_are_digits(digits: Text)
    requires
        digits.len() > 0,
        digits[0] != '+',
    ensures
        text::all_in(digits, Class::Digit) && number::value(digits) <= u64::MAX ==> {
            &&& number::parsed(digits) == Some(number::value(digits) as u64)
            &&& number::parsed(seq!['+'] + digits) == Some(number::value(digits) as u64)
        },
        number::value(digits) > u64::MAX ==> number::parsed(digits) is None && number::parsed(
            seq!['+'] + digits,
        ) is None,
        !text::all_in(digits, Class::Digit) ==> number::parsed(digits) is None && number::parsed(
            seq!['+'] + digits,
        ) is None,
        number::parsed(Seq::empty()) is None,
        number::parsed(seq!['+']) is None,
{
    let t = seq!['+'] + digits;
    assert(t[0] == '+');
    assert(t.skip(1) =~= digits);
    assert(number::unsigned_part(t) == digits);
    assert(number::unsigned_part(seq!['+']).len() == 0);
    if text::all_in(digits, Class::Digit) {
        assert(text::in_class(digits[0], Class::Digit));
    }
    assert(number::unsigned_part(digits) == digits);
}

/// The value of a number grows by its last digit.
pub proof fn numbers_are_read_digit_by_digit(s: Text, d: nat)
    requires
        d < 10,
    ensures
        number::value(s.push(number::digit_char(d))) == number::value(s) * 10 + d,
        number::value(Seq::empty()) == 0,
        number::digit_char(0) == '0',
        number::digit_char(9) == '9',
{
    assert(s.push(number::digit_char(d)).drop_last() =~= s);
}

/// A typed list is read as the runs it names, each once and in ascending
/// order, exactly when none of its tokens is in error.
pub proof fn typed_lists_are_read_in_order(list: Text, r: Result<Seq<u64>, Text>, run: u64)
    requires
        files::parses(list, r),
    ensures
        r matches Ok(runs) ==> {
            &&& runs.contains(run) <==> files::list_names(list, run)
            &&& forall|i: int, j: int| 0 <= i < j < runs.len() ==> runs[i] < runs[j]
        },
        r is Err <==> exists|k: int|
            0 <= k < files::tokens(list).len() && (#[trigger] files::tokens(list)[k]).len() > 0
                && files::token_range(files::tokens(list)[k]) is Err,
{
    one_bad_token_spoils_the_list(files::tokens(list), 0);
}

/// A token that is no number and no range is named in the error.
pub proof fn errors_name_the_token(token: Text)
    ensures
        files::token_range(token) matches Err(message) ==> text::has(message, "'"@ + token + "'"@),
{
    reveal_strlit("'");
    let p = "'"@ + token + "'"@;
    let a = "invalid range '"@ + token + "'"@;
    reveal_strlit("invalid range '");
    reveal_strlit("invalid range ");
    assert("invalid range '"@ =~= "invalid range "@ + "'"@);
    let i = "invalid range "@.len() as int;
    assert(a.subrange(i, i + p.len()) =~= p);
    assert(text::occurs_at(a, p, i));
    let b = files::bad_token(token);
    reveal_strlit("cannot parse '");
    reveal_strlit("cannot parse ");
    reveal_strlit("' — expected run numbers like 23642 or 23615-23620");
    assert("cannot parse '"@ =~= "cannot parse "@ + "'"@);
    let k = "cannot parse "@.len() as int;
    assert(b.subrange(k, k + p.len()) =~= p);
    assert(text::occurs_at(b, p, k));
}

/// Texts are ordered like words: by the first character that differs, and a
/// text before its continuations.
pub proof fn texts_are_ordered_like_words(front: Text, a: char, x: Text, b: char, y: Text)
    requires
        a < b,
    ensures
        text::in_order(front + (seq![a] + x), front + (seq![b] + y)),
        !text::in_order(front + (seq![b] + y), front + (seq![a] + x)),
        text::in_order(front, front + x),
        x.len() > 0 ==> !text::in_order(front + x, front),
{
    lemma_order_from(front, seq![a] + x, seq![b] + y, 0);
    lemma_order_from(front, seq![b] + y, seq![a] + x, 0);
    let none = Seq::<char>::empty();
    lemma_order_from(front, none, x, 0);
    lemma_order_from(front, x, none, 0);
    assert(front + none =~= front);
}

proof fn lemma_order_from(front: Text, x: Text, y: Text, i: int)
    requires
        0 <= i <= front.len(),
    ensures
        text::not_above(front + x, front + y, i) == text::not_above(
            front + x,
            front + y,
            front.len() as int,
        ),
        x.len() == 0 ==> text::not_above(front + x, front + y, front.len() as int),
        x.len() > 0 && y.len() == 0 ==> !text::not_above(front + x, front + y, front.len() as int),
        x.len() > 0 && y.len() > 0 && x[0] != y[0] ==> text::not_above(
            front + x,
            front + y,
            front.len() as int,
        ) == (x[0] < y[0]),
    decreases front.len() - i,
{
    if i < front.len() {
        assert((front + x)[i] == (front + y)[i]);
        lemma_order_from(front, x, y, i + 1);
    }
}

/// A text is cut at the first place the separator stands at.
pub proof fn texts_are_cut_at_the_first_separator(a: Text, pat: Text, b: Text)
    requires
        forall|k: int|
            0 <= k < a.len() ==> !(#[trigger] text::occurs_at(a + pat + b, pat, k)),
    ensures
        text::cut(a + pat + b, pat) == Some((a, b)),
{
    let s = a + pat + b;
    let i = a.len() as int;
    assert(s.subrange(i, i + pat.len()) =~= pat);
    texts_are_found_where_they_first_occur(s, pat, i);
    assert(s.take(i) =~= a);
    assert(s.skip(i + pat.len()) =~= b);
}

/// Padding adds spaces behind a text up to the width, and none to one that is
/// as long already.
pub proof fn padding_adds_spaces_behind(s: Text, width: nat, i: int)
    ensures
        text::padded(s, width).len() == (if s.len() > width {
            s.len()
        } else {
            width
        }),
        0 <= i < s.len() ==> text::padded(s, width)[i] == s[i],
        s.len() <= i < width ==> text::padded(s, width)[i] == ' ',
{
}

} // verus!
