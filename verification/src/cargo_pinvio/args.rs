//! Command lines: flags, their values, and what stands before and after `--`.

use crate::search::{first_at, first_where, lemma_first_absent, lemma_first_found};
use crate::text::{
    chars_of, ends_with, has_prefix, has_suffix, lemma_prefix, lemma_suffix, occurs, same_text,
    string_of, texts,
};
use vstd::prelude::*;

verus! {

/// How many arguments stand before the first `--`.
pub open spec fn dashes_at(args: Seq<Seq<char>>) -> nat
    decreases args.len(),
{
    if args.len() == 0 || args[0] == "--"@ {
        0
    } else {
        1 + dashes_at(args.skip(1))
    }
}

/// The arguments before the first `--`.
pub open spec fn before_dashes(args: Seq<Seq<char>>) -> Seq<Seq<char>> {
    args.take(dashes_at(args) as int)
}

/// The arguments after the first `--`.
pub open spec fn after_dashes(args: Seq<Seq<char>>) -> Seq<Seq<char>> {
    if dashes_at(args) < args.len() {
        args.skip(dashes_at(args) as int + 1)
    } else {
        Seq::empty()
    }
}

/// The value of a flag: what follows `name=`, or the argument after `name`.
pub open spec fn flag_value(args: Seq<Seq<char>>, name: Seq<char>) -> Option<Seq<char>>
    decreases args.len(),
{
    if args.len() == 0 {
        None
    } else if !has_prefix(args[0], name) {
        flag_value(args.skip(1), name)
    } else if args[0].len() == name.len() {
        if args.len() > 1 {
            Some(args[1])
        } else {
            None
        }
    } else if args[0][name.len() as int] == '=' {
        Some(args[0].skip(name.len() as int + 1))
    } else {
        flag_value(args.skip(1), name)
    }
}

/// The values that a flag is given, up to the first argument that only begins like the flag.
pub open spec fn flag_values(args: Seq<Seq<char>>, name: Seq<char>) -> Seq<Seq<char>>
    decreases args.len(),
{
    if args.len() == 0 {
        Seq::empty()
    } else if !has_prefix(args[0], name) {
        flag_values(args.skip(1), name)
    } else if args[0].len() == name.len() {
        if args.len() > 1 {
            seq![args[1]] + flag_values(args.skip(2), name)
        } else {
            Seq::empty()
        }
    } else if args[0][name.len() as int] == '=' {
        seq![args[0].skip(name.len() as int + 1)] + flag_values(args.skip(1), name)
    } else {
        Seq::empty()
    }
}

/// A text ends with `.rs`.
pub open spec fn is_rust_file() -> spec_fn(Seq<char>) -> bool {
    |s: Seq<char>| has_suffix(s, ".rs"@)
}

/// What an argument is to a flag.
enum FlagUse {
    Unrelated,
    Exact,
    WithValue(String),
    Longer,
}

fn flag_use(arg: &str, name: &str) -> (r: FlagUse)
    ensures
        match r {
            FlagUse::Unrelated => !has_prefix(arg@, name@),
            FlagUse::Exact => has_prefix(arg@, name@) && arg@.len() == name@.len(),
            FlagUse::WithValue(value) => {
                &&& has_prefix(arg@, name@)
                &&& arg@.len() > name@.len()
                &&& arg@[name@.len() as int] == '='
                &&& value@ == arg@.skip(name@.len() as int + 1)
            },
            FlagUse::Longer => {
                &&& has_prefix(arg@, name@)
                &&& arg@.len() > name@.len()
                &&& arg@[name@.len() as int] != '='
            },
        },
{
    let chars = chars_of(arg);
    let prefix = chars_of(name);
    if !occurs(&chars, &prefix, 0) {
        return FlagUse::Unrelated;
    }
    if chars.len() == prefix.len() {
        return FlagUse::Exact;
    }
    if chars[prefix.len()] != '=' {
        return FlagUse::Longer;
    }
    let mut value: Vec<char> = Vec::new();
    let start: usize = prefix.len() + 1;
    let mut i: usize = start;
    while i < chars.len()
        invariant
            start <= i <= chars.len(),
            value@ =~= chars@.subrange(start as int, i as int),
        decreases chars.len() - i,
    {
        value.push(chars[i]);
        i += 1;
    }
    assert(value@ =~= arg@.skip(name@.len() as int + 1));
    FlagUse::WithValue(string_of(&value))
}

/// The position of the first `--` at or after `start`; the number of arguments if there is none.
pub fn find_dashes(args: &Vec<String>, start: usize) -> (r: usize)
    requires
        start <= args@.len(),
    ensures
        start <= r <= args@.len(),
        r - start == dashes_at(texts(args@).skip(start as int)),
{
    let ghost all = texts(args@);
    let mut i: usize = start;
    while i < args.len()
        invariant
            start <= i <= args.len(),
            all == texts(args@),
            i - start + dashes_at(all.skip(i as int)) == dashes_at(all.skip(start as int)),
        decreases args.len() - i,
    {
        assert(all.skip(i as int)[0] == args@[i as int]@);
        if same_text(args[i].as_str(), "--") {
            return i;
        }
        assert(all.skip(i as int).skip(1) =~= all.skip(i + 1));
        i += 1;
    }
    i
}

/// The arguments from `from` up to `to`.
pub fn slice_of(args: &Vec<String>, from: usize, to: usize) -> (r: Vec<String>)
    requires
        from <= to <= args@.len(),
    ensures
        r@ == args@.subrange(from as int, to as int),
        texts(r@) == texts(args@).subrange(from as int, to as int),
{
    let mut out: Vec<String> = Vec::new();
    let mut i: usize = from;
    while i < to
        invariant
            from <= i <= to <= args.len(),
            out@ =~= args@.subrange(from as int, i as int),
        decreases to - i,
    {
        out.push(args[i].clone());
        i += 1;
    }
    assert(texts(out@) =~= texts(args@).subrange(from as int, to as int));
    out
}

/// The value of a flag that is given before the first `--`.
pub fn get_arg_flag_value(args: &Vec<String>, name: &str) -> (r: Option<String>)
    ensures
        match r {
            Some(value) => flag_value(before_dashes(texts(args@)), name@) == Some(value@),
            None => flag_value(before_dashes(texts(args@)), name@) is None,
        },
{
    let end: usize = find_dashes(args, 0);
    let ghost all = before_dashes(texts(args@));
    assert(texts(args@).skip(0) =~= texts(args@));
    let mut i: usize = 0;
    assert(all.skip(0) =~= all);
    while i < end
        invariant
            i <= end <= args.len(),
            all == texts(args@).take(end as int),
            all == before_dashes(texts(args@)),
            flag_value(all.skip(i as int), name@) == flag_value(all, name@),
        decreases end - i,
    {
        let ghost rest = all.skip(i as int);
        assert(rest[0] == args@[i as int]@);
        assert(rest.skip(1) =~= all.skip(i + 1));
        match flag_use(args[i].as_str(), name) {
            FlagUse::Exact => {
                if i + 1 < end {
                    assert(rest[1] == args@[i + 1]@);
                    return Some(args[i + 1].clone());
                }
                return None;
            },
            FlagUse::WithValue(value) => {
                return Some(value);
            },
            _ => {},
        }
        i += 1;
    }
    None
}

/// The check may give the answer on a string that holds the text.
pub open spec fn may_answer<F: Fn(&str) -> bool>(check: F, text: Seq<char>, answer: bool) -> bool {
    exists|v: &str| v@ == text && #[trigger] call_ensures(check, (v,), answer)
}

/// The check can be called on every string that holds the text.
pub open spec fn callable_on<F: Fn(&str) -> bool>(check: F, text: Seq<char>) -> bool {
    forall|v: &str| v@ == text ==> call_requires(check, (v,))
}

/// The check may refuse all values before position `i`.
pub open spec fn may_refuse_before<F: Fn(&str) -> bool>(
    check: F,
    values: Seq<Seq<char>>,
    i: int,
) -> bool {
    forall|j: int| 0 <= j < i ==> may_answer(check, #[trigger] values[j], false)
}

/// Whether some value that a flag is given before the first `--` passes the check. The values
/// are checked in order, up to the first that passes.
pub fn any_arg_flag<F: Fn(&str) -> bool>(args: &Vec<String>, name: &str, check: F) -> (r: bool)
    requires
        forall|i: int|
            0 <= i < flag_values(before_dashes(texts(args@)), name@).len()
                && #[trigger] may_refuse_before(
                check,
                flag_values(before_dashes(texts(args@)), name@),
                i,
            ) ==> callable_on(check, flag_values(before_dashes(texts(args@)), name@)[i]),
    ensures
        r ==> exists|i: int|
            {
                &&& 0 <= i < flag_values(before_dashes(texts(args@)), name@).len()
                &&& may_answer(
                    check,
                    #[trigger] flag_values(before_dashes(texts(args@)), name@)[i],
                    true,
                )
                &&& may_refuse_before(check, flag_values(before_dashes(texts(args@)), name@), i)
            },
        !r ==> may_refuse_before(
            check,
            flag_values(before_dashes(texts(args@)), name@),
            flag_values(before_dashes(texts(args@)), name@).len() as int,
        ),
{
    let end: usize = find_dashes(args, 0);
    let ghost all = before_dashes(texts(args@));
    let ghost values = flag_values(all, name@);
    let ghost mut done: Seq<Seq<char>> = Seq::empty();
    assert(texts(args@).skip(0) =~= texts(args@));
    let mut i: usize = 0;
    assert(all.skip(0) =~= all);
    assert(done + values =~= values);
    while i < end
        invariant
            i <= end <= args.len(),
            all == texts(args@).take(end as int),
            values == flag_values(all, name@),
            all == before_dashes(texts(args@)),
            forall|k: int|
                0 <= k < values.len() && #[trigger] may_refuse_before(check, values, k)
                    ==> callable_on(check, values[k]),
            done + flag_values(all.skip(i as int), name@) =~= values,
            forall|k: int|
                0 <= k < done.len() ==> may_answer(check, #[trigger] done[k], false),
        decreases end - i,
    {
        let ghost rest = all.skip(i as int);
        assert(rest[0] == args@[i as int]@);
        assert(rest.skip(1) =~= all.skip(i + 1));
        match flag_use(args[i].as_str(), name) {
            FlagUse::Unrelated => {
                i += 1;
            },
            FlagUse::Exact => {
                if i + 1 >= end {
                    assert(done =~= values);
                    return false;
                }
                assert(rest[1] == args@[i + 1]@);
                assert(rest.skip(2) =~= all.skip(i + 2));
                let value = args[i + 1].as_str();
                assert(values[done.len() as int] == value@);
                assert forall|j: int| 0 <= j < done.len() implies may_answer(
                    check,
                    #[trigger] values[j],
                    false,
                ) by {
                    assert(values[j] == done[j]);
                }
                assert(may_refuse_before(check, values, done.len() as int));
                assert(callable_on(check, value@));
                if check(value) {
                    assert(may_answer(check, values[done.len() as int], true));
                    return true;
                }
                assert(may_answer(check, value@, false));
                proof {
                    done = done.push(value@);
                }
                i += 2;
            },
            FlagUse::WithValue(text) => {
                let value = text.as_str();
                assert(values[done.len() as int] == value@);
                assert forall|j: int| 0 <= j < done.len() implies may_answer(
                    check,
                    #[trigger] values[j],
                    false,
                ) by {
                    assert(values[j] == done[j]);
                }
                assert(may_refuse_before(check, values, done.len() as int));
                assert(callable_on(check, value@));
                if check(value) {
                    assert(may_answer(check, values[done.len() as int], true));
                    return true;
                }
                assert(may_answer(check, value@, false));
                proof {
                    done = done.push(value@);
                }
                i += 1;
            },
            FlagUse::Longer => {
                assert(done =~= values);
                return false;
            },
        }
    }
    assert(done =~= values);
    false
}

/// The first argument before `--` that ends with `.rs`.
pub fn get_first_arg_with_rs_suffix(args: &Vec<String>) -> (r: Option<String>)
    ensures
        match r {
            Some(arg) => first_where(before_dashes(texts(args@)), is_rust_file()) == Some(arg@),
            None => first_where(before_dashes(texts(args@)), is_rust_file()) is None,
        },
{
    let end: usize = find_dashes(args, 0);
    let ghost all = before_dashes(texts(args@));
    assert(texts(args@).skip(0) =~= texts(args@));
    let mut i: usize = 0;
    while i < end
        invariant
            i <= end <= args.len(),
            all == texts(args@).take(end as int),
            all == before_dashes(texts(args@)),
            forall|j: int| 0 <= j < i ==> !is_rust_file()(#[trigger] all[j]),
        decreases end - i,
    {
        assert(all[i as int] == args@[i as int]@);
        if ends_with(args[i].as_str(), ".rs") {
            proof {
                assert(first_at(all, is_rust_file(), i as int));
                lemma_first_found(all, is_rust_file(), i as int);
            }
            return Some(args[i].clone());
        }
        i += 1;
    }
    proof {
        lemma_first_absent(all, is_rust_file());
    }
    None
}

/// Nothing before the first `--` is `--`, and together with it the two parts are all arguments.
pub proof fn lemma_dashes_split(args: Seq<Seq<char>>)
    ensures
        dashes_at(args) <= args.len(),
        forall|i: int| 0 <= i < before_dashes(args).len() ==> #[trigger] before_dashes(args)[i] != "--"@,
        dashes_at(args) < args.len() ==> args == before_dashes(args) + seq!["--"@] + after_dashes(
            args,
        ),
        dashes_at(args) == args.len() ==> args == before_dashes(args),
    decreases args.len(),
{
    if args.len() > 0 && args[0] != "--"@ {
        let rest = args.skip(1);
        lemma_dashes_split(rest);
        assert forall|i: int| 0 <= i < before_dashes(args).len() implies #[trigger] before_dashes(
            args,
        )[i] != "--"@ by {
            if i > 0 {
                assert(before_dashes(rest)[i - 1] == args[i]);
            }
        }
        if dashes_at(args) < args.len() {
            assert(rest[dashes_at(rest) as int] == "--"@) by {
                assert((before_dashes(rest) + seq!["--"@] + after_dashes(rest))[dashes_at(
                    rest,
                ) as int] == "--"@);
            }
            assert(args[dashes_at(args) as int] == "--"@);
            assert(args =~= before_dashes(args) + seq!["--"@] + after_dashes(args));
        } else {
            assert(args =~= before_dashes(args));
        }
    } else if args.len() > 0 {
        assert(args =~= before_dashes(args) + seq!["--"@] + after_dashes(args));
    } else {
        assert(args =~= before_dashes(args));
    }
}

/// The value of a flag is the first of the values that it is given, if it is given any.
pub proof fn lemma_first_flag_value(args: Seq<Seq<char>>, name: Seq<char>)
    ensures
        flag_values(args, name).len() > 0 ==> flag_value(args, name) == Some(
            flag_values(args, name)[0],
        ),
    decreases args.len(),
{
    if args.len() > 0 && !has_prefix(args[0], name) {
        lemma_first_flag_value(args.skip(1), name);
    }
}

/// What stands before the first `--` and what stands after it, for any two such parts. Without
/// a `--` everything stands before it, and nothing after it.
pub proof fn lemma_parts_around_dashes(before: Seq<Seq<char>>, after: Seq<Seq<char>>)
    requires
        forall|i: int| 0 <= i < before.len() ==> #[trigger] before[i] != "--"@,
    ensures
        before_dashes(before + seq!["--"@] + after) == before,
        after_dashes(before + seq!["--"@] + after) == after,
        before_dashes(before) == before,
        after_dashes(before) == Seq::<Seq<char>>::empty(),
    decreases before.len(),
{
    let all = before + seq!["--"@] + after;
    if before.len() == 0 {
        assert(all[0] == "--"@);
    } else {
        let rest = before.skip(1);
        assert forall|i: int| 0 <= i < rest.len() implies #[trigger] rest[i] != "--"@ by {
            assert(rest[i] == before[i + 1]);
        }
        lemma_parts_around_dashes(rest, after);
        assert(all[0] == before[0]);
        assert(all.skip(1) =~= rest + seq!["--"@] + after);
        assert(rest.take(dashes_at(rest) as int) == rest);
        assert(dashes_at(rest) == rest.len()) by {
            lemma_dashes_split(rest);
        }
        assert(dashes_at(all.skip(1)) == rest.len()) by {
            lemma_dashes_split(all.skip(1));
            assert(all.skip(1).take(dashes_at(all.skip(1)) as int).len() == rest.len());
        }
    }
    assert(before_dashes(all) =~= before);
    assert(after_dashes(all) =~= after);
    assert(before_dashes(before) =~= before);
}

/// The argument is the flag, alone or with a value behind `=`.
pub open spec fn is_flag(arg: Seq<char>, name: Seq<char>) -> bool {
    ||| arg == name
    ||| exists|value: Seq<char>| arg == #[trigger] (name + seq!['='] + value)
}

/// What an argument is to a flag, by its characters.
proof fn lemma_is_flag(arg: Seq<char>, name: Seq<char>)
    ensures
        is_flag(arg, name) <==> has_prefix(arg, name) && (arg.len() == name.len()
            || arg[name.len() as int] == '='),
{
    lemma_prefix(arg, name);
    if has_prefix(arg, name) {
        let end = choose|end: Seq<char>| arg == #[trigger] (name + end);
        if arg.len() == name.len() {
            assert(arg =~= name);
        } else if arg[name.len() as int] == '=' {
            assert(end[0] == '=');
            assert(arg =~= name + seq!['='] + end.skip(1));
        }
    }
    if is_flag(arg, name) {
        if arg == name {
            assert(arg =~= name + Seq::<char>::empty());
        } else {
            let value = choose|value: Seq<char>| arg == #[trigger] (name + seq!['='] + value);
            assert(arg =~= name + (seq!['='] + value));
            assert(arg[name.len() as int] == '=');
        }
    }
}

/// The value of a flag is the argument behind the first use of it, or what stands there behind
/// `=`. A flag that is not used has none, and neither has one that is the last argument. An
/// argument that only begins like the flag is no use of it.
pub proof fn lemma_value_at_first_use(
    before: Seq<Seq<char>>,
    name: Seq<char>,
    value: Seq<char>,
    rest: Seq<Seq<char>>,
)
    requires
        forall|i: int| 0 <= i < before.len() ==> !is_flag(#[trigger] before[i], name),
    ensures
        flag_value(before + seq![name, value] + rest, name) == Some(value),
        flag_value(before + seq![name + seq!['='] + value] + rest, name) == Some(value),
        flag_value(before, name) is None,
        flag_value(before.push(name), name) is None,
    decreases before.len(),
{
    let apart = before + seq![name, value] + rest;
    let given = name + seq!['='] + value;
    let together = before + seq![given] + rest;
    let last = before.push(name);
    if before.len() == 0 {
        lemma_is_flag(name, name);
        lemma_is_flag(given, name);
        assert(given == name + seq!['='] + value);
        assert(apart[0] == name && apart[1] == value);
        assert(together[0] == given);
        assert(given.skip(name.len() as int + 1) =~= value);
        assert(last[0] == name);
    } else {
        let others = before.skip(1);
        assert forall|i: int| 0 <= i < others.len() implies !is_flag(#[trigger] others[i], name) by {
            assert(others[i] == before[i + 1]);
        }
        lemma_value_at_first_use(others, name, value, rest);
        assert(!is_flag(before[0], name));
        lemma_is_flag(before[0], name);
        assert(apart[0] == before[0] && together[0] == before[0] && last[0] == before[0]);
        assert(apart.skip(1) =~= others + seq![name, value] + rest);
        assert(together.skip(1) =~= others + seq![given] + rest);
        assert(last.skip(1) =~= others.push(name));
    }
}

/// The flag has a value somewhere among the arguments: behind `=`, or as the argument after it.
pub open spec fn gives_flag(args: Seq<Seq<char>>, name: Seq<char>) -> bool {
    exists|i: int|
        0 <= i < args.len() && is_flag(#[trigger] args[i], name) && (args[i] == name ==> i + 1
            < args.len())
}

/// A flag has a value exactly when it is given one somewhere.
pub proof fn lemma_flag_has_value(args: Seq<Seq<char>>, name: Seq<char>)
    ensures
        flag_value(args, name) is Some <==> gives_flag(args, name),
    decreases args.len(),
{
    if args.len() > 0 {
        let rest = args.skip(1);
        lemma_flag_has_value(rest, name);
        lemma_is_flag(args[0], name);
        assert(has_prefix(args[0], name) && args[0].len() == name.len() ==> args[0] =~= name) by {
            if has_prefix(args[0], name) && args[0].len() == name.len() {
                assert(args[0].subrange(0, name.len() as int) =~= args[0]);
            }
        }
        if gives_flag(rest, name) {
            let i = choose|i: int|
                0 <= i < rest.len() && is_flag(#[trigger] rest[i], name) && (rest[i] == name ==> i
                    + 1 < rest.len());
            assert(args[i + 1] == rest[i]);
            assert(gives_flag(args, name));
        }
        if gives_flag(args, name) {
            let i = choose|i: int|
                0 <= i < args.len() && is_flag(#[trigger] args[i], name) && (args[i] == name ==> i
                    + 1 < args.len());
            if i > 0 {
                assert(rest[i - 1] == args[i]);
                assert(gives_flag(rest, name));
            }
        }
        if is_flag(args[0], name) && flag_value(args, name) is Some {
            assert(gives_flag(args, name));
        }
    }
}

/// The values that a flag is given, one use after another: arguments that do not begin like the
/// flag are passed over, each use gives one value, and an argument that begins like the flag
/// without being a use of it ends the list.
pub proof fn lemma_values_use_by_use(
    name: Seq<char>,
    value: Seq<char>,
    other: Seq<char>,
    rest: Seq<Seq<char>>,
)
    ensures
        flag_values(Seq::empty(), name) == Seq::<Seq<char>>::empty(),
        flag_values(seq![name], name) == Seq::<Seq<char>>::empty(),
        flag_values(seq![name, value] + rest, name) == seq![value] + flag_values(rest, name),
        flag_values(seq![name + seq!['='] + value] + rest, name) == seq![value] + flag_values(
            rest,
            name,
        ),
        (forall|end: Seq<char>| other != #[trigger] (name + end)) ==> flag_values(
            seq![other] + rest,
            name,
        ) == flag_values(rest, name),
        (exists|end: Seq<char>| other == #[trigger] (name + end)) && !is_flag(other, name)
            ==> flag_values(seq![other] + rest, name) == Seq::<Seq<char>>::empty(),
{
    let given = name + seq!['='] + value;
    let apart = seq![name, value] + rest;
    let together = seq![given] + rest;
    let with_other = seq![other] + rest;
    lemma_is_flag(name, name);
    lemma_is_flag(given, name);
    lemma_is_flag(other, name);
    lemma_prefix(other, name);
    assert(given == name + seq!['='] + value);
    assert(seq![name][0] == name);
    assert(apart[0] == name && apart[1] == value);
    assert(apart.skip(2) =~= rest);
    assert(together[0] == given);
    assert(together.skip(1) =~= rest);
    assert(given.skip(name.len() as int + 1) =~= value);
    assert(with_other[0] == other);
    assert(with_other.skip(1) =~= rest);
}

/// The argument names a source file.
pub open spec fn names_source(arg: Seq<char>) -> bool {
    exists|start: Seq<char>| arg == #[trigger] (start + ".rs"@)
}

/// The source file is the first argument that ends with `.rs`, as long as no `--` comes before
/// it. Without such an argument there is none.
pub proof fn lemma_source_is_first(
    before: Seq<Seq<char>>,
    file: Seq<char>,
    rest: Seq<Seq<char>>,
)
    requires
        forall|i: int| 0 <= i < before.len() ==> #[trigger] before[i] != "--"@,
        forall|i: int| 0 <= i < before.len() ==> !names_source(#[trigger] before[i]),
        names_source(file),
    ensures
        first_where(before_dashes(before + seq![file] + rest), is_rust_file()) == Some(file),
        first_where(before_dashes(before), is_rust_file()) is None,
        first_where(before_dashes(before + seq!["--"@] + rest), is_rust_file()) is None,
{
    assert forall|i: int| 0 <= i < before.len() implies !is_rust_file()(#[trigger] before[i]) by {
        lemma_suffix(before[i], ".rs"@);
        assert(!names_source(before[i]));
    }
    lemma_suffix(file, ".rs"@);
    lemma_parts_around_dashes(before, rest);
    lemma_first_absent(before, is_rust_file());
    let all = before + seq![file] + rest;
    let kept = before_dashes(all);
    assert(file != "--"@) by {
        reveal_strlit("--");
        reveal_strlit(".rs");
        let start = choose|start: Seq<char>| file == #[trigger] (start + ".rs"@);
        assert(file[file.len() - 1] == 's');
    }
    lemma_dashes_split(all);
    if kept.len() <= before.len() {
        if kept.len() < all.len() {
            assert(all[kept.len() as int] == "--"@);
            if kept.len() < before.len() {
                assert(before[kept.len() as int] == "--"@);
            } else {
                assert(all[before.len() as int] == file);
            }
        }
    }
    assert(kept[before.len() as int] == file);
    assert forall|j: int| 0 <= j < before.len() implies !is_rust_file()(#[trigger] kept[j]) by {
        assert(kept[j] == before[j]);
    }
    assert(first_at(kept, is_rust_file(), before.len() as int));
    lemma_first_found(kept, is_rust_file(), before.len() as int);
}

} // verus!
