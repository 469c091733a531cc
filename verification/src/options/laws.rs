//! What holds of every command line.

use crate::options::{
    apply_args, apply_flag, apply_flags, default_options, flag_is_on, holds_flags, is_flag,
    parse_args, strip_dashes, with_flag, ErrorView, OptionsView, Reading,
};
use vstd::prelude::*;

verus! {

/// Reading a run of flag letters is reading its first part and then, unless
/// that was refused, the rest.
pub proof fn lemma_apply_flags_in_parts(o: OptionsView, first: Seq<char>, second: Seq<char>)
    ensures
        apply_flags(o, first + second) == match apply_flags(o, first) {
            Ok(next) => apply_flags(next, second),
            Err(e) => Err(e),
        },
    decreases first.len(),
{
    if first.len() == 0 {
        assert(first + second =~= second);
    } else {
        assert((first + second).drop_first() =~= first.drop_first() + second);
        match apply_flag(o, first[0]) {
            Ok(next) => lemma_apply_flags_in_parts(next, first.drop_first(), second),
            Err(_) => {},
        }
    }
}

/// Dashes are dropped at the front only.
pub proof fn lemma_strip_dashes_of_joined(front: Seq<char>, rest: Seq<char>)
    requires
        rest.len() == 0 || rest[0] != '-',
    ensures
        strip_dashes(front + rest) == strip_dashes(front) + rest,
    decreases front.len(),
{
    if front.len() == 0 {
        assert(front + rest =~= rest);
    } else if front[0] == '-' {
        assert((front + rest).drop_first() =~= front.drop_first() + rest);
        lemma_strip_dashes_of_joined(front.drop_first(), rest);
    }
}

/// Flag letters may be bundled in one argument or given in two: `-al` asks
/// for what `-a -l` asks for, and is refused where that is refused.
pub proof fn lemma_flags_may_be_bundled(at: Reading, first: Seq<char>, second: Seq<char>)
    requires
        second.len() == 0 || second[0] != '-',
    ensures
        apply_args(at, seq![seq!['-'] + first + second]) == apply_args(
            at,
            seq![seq!['-'] + first, seq!['-'] + second],
        ),
{
    let bundled = seq!['-'] + first + second;
    let one = seq!['-'] + first;
    let two = seq!['-'] + second;
    assert(bundled.drop_first() =~= first + second);
    assert(one.drop_first() =~= first);
    assert(two.drop_first() =~= second);
    lemma_strip_dashes_of_joined(first, second);
    lemma_strip_dashes_of_joined(Seq::empty(), second);
    assert(strip_dashes(bundled) == strip_dashes(first) + second);
    assert(strip_dashes(one) == strip_dashes(first));
    assert(strip_dashes(two) == second);
    lemma_apply_flags_in_parts(at.options, strip_dashes(first), second);
    reveal_with_fuel(apply_args, 3);
}

/// The letters can be read one after another: each names a flag that is off
/// in `o`, and none comes twice.
pub open spec fn readable(o: OptionsView, letters: Seq<char>) -> bool {
    &&& forall|i: int|
        0 <= i < letters.len() ==> is_flag(#[trigger] letters[i]) && !flag_is_on(o, letters[i])
    &&& letters.no_duplicates()
}

/// The options `o` with the flags turned on that the letters name.
pub open spec fn with_flags(o: OptionsView, letters: Seq<char>) -> OptionsView {
    OptionsView {
        all: o.all || letters.contains('a'),
        long_format: o.long_format || letters.contains('l'),
        dirs_only: o.dirs_only || letters.contains('d'),
        directory: o.directory,
        reverse_sorted: o.reverse_sorted || letters.contains('r'),
        group_by: o.group_by || letters.contains('g'),
    }
}

/// The flag letters of a command line, in the order in which they are given.
pub open spec fn flag_letters(args: Seq<Seq<char>>) -> Seq<char>
    decreases args.len(),
{
    if args.len() == 0 {
        Seq::empty()
    } else if holds_flags(args[0]) {
        strip_dashes(args[0]) + flag_letters(args.drop_first())
    } else {
        flag_letters(args.drop_first())
    }
}

/// The arguments of a command line that name a directory, in the order in
/// which they are given.
pub open spec fn directory_arguments(args: Seq<Seq<char>>) -> Seq<Seq<char>>
    decreases args.len(),
{
    if args.len() == 0 {
        Seq::empty()
    } else if holds_flags(args[0]) {
        directory_arguments(args.drop_first())
    } else {
        seq![args[0]] + directory_arguments(args.drop_first())
    }
}

/// A command line is accepted when every letter names a flag, no letter comes
/// twice and at most one argument names a directory.
pub open spec fn well_formed(args: Seq<Seq<char>>) -> bool {
    &&& readable(default_options(), flag_letters(args))
    &&& directory_arguments(args).len() <= 1
}

/// What an accepted command line asks for: the flags whose letters it holds,
/// and the directory it names, or else the current directory.
pub open spec fn asked(args: Seq<Seq<char>>) -> OptionsView {
    let flags = with_flags(default_options(), flag_letters(args));
    if directory_arguments(args).len() > 0 {
        OptionsView { directory: directory_arguments(args)[0], ..flags }
    } else {
        flags
    }
}

/// A letter is among two runs joined when it is in one of them.
proof fn lemma_contains_of_joined(x: Seq<char>, y: Seq<char>, ch: char)
    ensures
        (x + y).contains(ch) <==> x.contains(ch) || y.contains(ch),
{
    if (x + y).contains(ch) {
        let i = choose|i: int| 0 <= i < (x + y).len() && (x + y)[i] == ch;
        if i < x.len() {
            assert(x[i] == ch);
        } else {
            assert(y[i - x.len()] == ch);
        }
    }
    if x.contains(ch) {
        let i = choose|i: int| 0 <= i < x.len() && x[i] == ch;
        assert((x + y)[i] == ch);
    }
    if y.contains(ch) {
        let i = choose|i: int| 0 <= i < y.len() && y[i] == ch;
        assert((x + y)[x.len() + i] == ch);
    }
}

/// Turning on the flags of two runs of letters, one after the other, turns on
/// the flags of the runs joined.
proof fn lemma_with_flags_of_joined(o: OptionsView, x: Seq<char>, y: Seq<char>)
    ensures
        with_flags(with_flags(o, x), y) == with_flags(o, x + y),
{
    lemma_contains_of_joined(x, y, 'a');
    lemma_contains_of_joined(x, y, 'l');
    lemma_contains_of_joined(x, y, 'd');
    lemma_contains_of_joined(x, y, 'r');
    lemma_contains_of_joined(x, y, 'g');
}

/// Two runs joined can be read exactly when the first can be read and then
/// the second.
proof fn lemma_readable_of_joined(o: OptionsView, x: Seq<char>, y: Seq<char>)
    ensures
        readable(o, x + y) <==> readable(o, x) && readable(with_flags(o, x), y),
{
    let xy = x + y;
    if readable(o, xy) {
        assert forall|i: int| 0 <= i < x.len() implies is_flag(#[trigger] x[i]) && !flag_is_on(
            o,
            x[i],
        ) by {
            assert(xy[i] == x[i]);
        }
        assert forall|i: int, j: int| 0 <= i < x.len() && 0 <= j < x.len() && i != j implies x[i]
            != x[j] by {
            assert(xy[i] == x[i] && xy[j] == x[j]);
        }
        assert forall|i: int| 0 <= i < y.len() implies is_flag(#[trigger] y[i]) && !flag_is_on(
            with_flags(o, x),
            y[i],
        ) by {
            assert(xy[x.len() + i] == y[i]);
            if x.contains(y[i]) {
                let k = choose|k: int| 0 <= k < x.len() && x[k] == y[i];
                assert(xy[k] == xy[x.len() + i]);
            }
        }
        assert forall|i: int, j: int| 0 <= i < y.len() && 0 <= j < y.len() && i != j implies y[i]
            != y[j] by {
            assert(xy[x.len() + i] == y[i] && xy[x.len() + j] == y[j]);
        }
    }
    if readable(o, x) && readable(with_flags(o, x), y) {
        assert forall|i: int| 0 <= i < xy.len() implies is_flag(#[trigger] xy[i]) && !flag_is_on(
            o,
            xy[i],
        ) by {
            if i >= x.len() {
                assert(xy[i] == y[i - x.len()]);
            }
        }
        assert forall|i: int, j: int| 0 <= i < xy.len() && 0 <= j < xy.len() && i != j implies xy[i]
            != xy[j] by {
            if i < x.len() && j >= x.len() {
                assert(x.contains(x[i]));
                assert(xy[j] == y[j - x.len()]);
            } else if j < x.len() && i >= x.len() {
                assert(x.contains(x[j]));
                assert(xy[i] == y[i - x.len()]);
            } else if i >= x.len() {
                assert(xy[i] == y[i - x.len()] && xy[j] == y[j - x.len()]);
            }
        }
    }
}

/// A run of letters that can be read turns on the flags it names; any other
/// run is refused.
pub proof fn lemma_apply_flags_result(o: OptionsView, letters: Seq<char>)
    ensures
        readable(o, letters) ==> apply_flags(o, letters) == Ok::<OptionsView, ErrorView>(
            with_flags(o, letters),
        ),
        !readable(o, letters) ==> apply_flags(o, letters) is Err,
    decreases letters.len(),
{
    if letters.len() == 0 {
        assert(with_flags(o, letters) == o);
    } else {
        let first = seq![letters[0]];
        let rest = letters.drop_first();
        assert(letters =~= first + rest);
        lemma_readable_of_joined(o, first, rest);
        lemma_with_flags_of_joined(o, first, rest);
        assert(first.contains(letters[0]));
        assert(readable(o, first) <==> is_flag(letters[0]) && !flag_is_on(o, letters[0])) by {
            assert(first[0] == letters[0]);
        }
        if readable(o, first) {
            assert(with_flags(o, first) == with_flag(o, letters[0])) by {
                assert forall|ch: char| first.contains(ch) implies ch == letters[0] by {
                    let i = choose|i: int| 0 <= i < first.len() && first[i] == ch;
                    assert(first[i] == letters[0]);
                }
            }
            lemma_apply_flags_result(with_flag(o, letters[0]), rest);
        }
    }
}

/// The arguments can be read from `at` on: their letters can be read, and
/// they name no more than the one directory that is still to be named.
spec fn can_go_on(at: Reading, args: Seq<Seq<char>>) -> bool {
    &&& readable(at.options, flag_letters(args))
    &&& if at.directory_given {
        directory_arguments(args).len() == 0
    } else {
        directory_arguments(args).len() <= 1
    }
}

/// Where the reading stands after arguments that could be read from `at` on.
spec fn gone_on(at: Reading, args: Seq<Seq<char>>) -> Reading {
    let flags = with_flags(at.options, flag_letters(args));
    if directory_arguments(args).len() > 0 {
        Reading {
            options: OptionsView { directory: directory_arguments(args)[0], ..flags },
            directory_given: true,
        }
    } else {
        Reading { options: flags, ..at }
    }
}

/// Arguments that can be read from `at` on are read; any others are refused.
proof fn lemma_apply_args_result(at: Reading, args: Seq<Seq<char>>)
    ensures
        can_go_on(at, args) ==> apply_args(at, args) == Ok::<Reading, ErrorView>(gone_on(at, args)),
        !can_go_on(at, args) ==> apply_args(at, args) is Err,
    decreases args.len(),
{
    if args.len() == 0 {
        assert(with_flags(at.options, flag_letters(args)) == at.options);
    } else {
        let rest = args.drop_first();
        if holds_flags(args[0]) {
            let x = strip_dashes(args[0]);
            lemma_apply_flags_result(at.options, x);
            lemma_readable_of_joined(at.options, x, flag_letters(rest));
            lemma_with_flags_of_joined(at.options, x, flag_letters(rest));
            if readable(at.options, x) {
                lemma_apply_args_result(
                    Reading { options: with_flags(at.options, x), ..at },
                    rest,
                );
            }
        } else if !at.directory_given {
            let next = Reading {
                options: OptionsView { directory: args[0], ..at.options },
                directory_given: true,
            };
            assert(readable(next.options, flag_letters(rest)) == readable(
                at.options,
                flag_letters(rest),
            ));
            lemma_apply_args_result(next, rest);
        }
    }
}

/// A command line in which every letter names a flag, no letter comes twice
/// and at most one argument names a directory gives the options it asks for;
/// every other command line is refused.
pub proof fn lemma_parse_args_result(args: Seq<Seq<char>>)
    ensures
        well_formed(args) ==> parse_args(args) == Ok::<OptionsView, ErrorView>(asked(args)),
        !well_formed(args) ==> parse_args(args) is Err,
{
    lemma_apply_args_result(Reading { options: default_options(), directory_given: false }, args);
}

} // verus!
