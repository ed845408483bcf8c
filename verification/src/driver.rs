//! The compiler driver: its arguments, and what it announces.

use crate::text::{same_text, texts};
use vstd::prelude::*;
use vstd::string::*;

verus! {

pub const OWN_FLAG: &'static str = "-Zpinvio";

/// What is reported for each use of the driver's own flag.
pub const OWN_FLAG_NOTICE: &'static str = "TODO - Getting args!";

pub const SYSROOT_FLAG: &'static str = "--sysroot";

pub const RULE: &'static str = "====================";

pub const SCOPE_NOTE: &'static str =
    "Note: analysis covers ALL modules in the crate, not only the entry point file.";

pub const UNKNOWN_CRATE: &'static str = "unknown-crate";

/// What the driver does in the course of a compilation.
#[derive(Clone, Copy, PartialEq, Eq, Structural, Debug)]
pub struct PinvioCompilerCalls {}

impl PinvioCompilerCalls {
    pub fn new() -> (r: PinvioCompilerCalls)
        ensures
            r == (PinvioCompilerCalls {  }),
    {
        PinvioCompilerCalls {  }
    }

    /// The lines that announce the analysis of a crate, with the name that it was given and the
    /// source file that it starts with.
    pub fn after_analysis(&self, crate_name: Option<&str>, entry: &str) -> (r: Vec<String>)
        ensures
            texts(r@) == seq![
                RULE@,
                "Crate: "@ + name_or_default(crate_name) + " (entry point: "@ + entry@ + ")"@,
                SCOPE_NOTE@,
            ],
    {
        let mut line = "Crate: ".to_owned();
        match crate_name {
            Some(name) => line.append(name),
            None => line.append(UNKNOWN_CRATE),
        }
        line.append(" (entry point: ");
        line.append(entry);
        line.append(")");
        let mut lines: Vec<String> = Vec::new();
        lines.push(RULE.to_owned());
        lines.push(line);
        lines.push(SCOPE_NOTE.to_owned());
        assert(texts(lines@) =~= seq![RULE@, line@, SCOPE_NOTE@]);
        lines
    }
}

/// The name of a crate, or a stand-in for one that was given none.
pub open spec fn name_or_default(name: Option<&str>) -> Seq<char> {
    match name {
        Some(n) => n@,
        None => UNKNOWN_CRATE@,
    }
}

/// The arguments without the driver's own flag.
pub open spec fn without_own_flag(args: Seq<Seq<char>>) -> Seq<Seq<char>> {
    args.filter(|a: Seq<char>| a != OWN_FLAG@)
}

/// What the driver was started with.
#[derive(Debug)]
pub struct Config {
    /// The arguments for the compiler.
    pub args: Vec<String>,
    /// How often the driver's own flag was given.
    pub own_flags: usize,
}

/// Takes the driver's own flag out of the arguments.
pub fn parse_config(args: &Vec<String>) -> (r: Config)
    ensures
        texts(r.args@) == without_own_flag(texts(args@)),
        r.own_flags + r.args@.len() == args@.len(),
{
    let mut kept: Vec<String> = Vec::new();
    let mut own_flags: usize = 0;
    let mut i: usize = 0;
    assert(texts(kept@) =~= without_own_flag(texts(args@).take(0)));
    while i < args.len()
        invariant
            i <= args.len(),
            texts(kept@) == without_own_flag(texts(args@).take(i as int)),
            own_flags + kept@.len() == i,
        decreases args.len() - i,
    {
        proof {
            let all = texts(args@);
            assert(all.take(i + 1).drop_last() =~= all.take(i as int));
            assert(all.take(i + 1).last() == args@[i as int]@);
            reveal(Seq::filter);
        }
        if same_text(args[i].as_str(), OWN_FLAG) {
            own_flags += 1;
        } else {
            let ghost before = texts(kept@);
            kept.push(args[i].clone());
            assert(texts(kept@) =~= before.push(args@[i as int]@));
        }
        i += 1;
    }
    assert(texts(args@).take(args@.len() as int) =~= texts(args@));
    Config { args: kept, own_flags }
}

/// The sysroot that was set when the driver was built. One has to be set.
pub fn compile_time_sysroot(build_sysroot: Option<&str>) -> (r: Option<String>)
    requires
        build_sysroot is Some,
    ensures
        r is Some,
        r->0@ == build_sysroot->0@,
{
    match build_sysroot {
        Some(path) => Some(path.to_owned()),
        None => None,
    }
}

/// The arguments name a sysroot.
pub open spec fn names_sysroot(args: Seq<Seq<char>>) -> bool {
    args.contains(SYSROOT_FLAG@)
}

/// The arguments with a sysroot: their own, or else the given one.
pub open spec fn with_sysroot(args: Seq<Seq<char>>, sysroot: Option<Seq<char>>) -> Seq<Seq<char>> {
    match sysroot {
        Some(path) => if names_sysroot(args) {
            args
        } else {
            args + seq![SYSROOT_FLAG@, path]
        },
        None => args,
    }
}

/// Gives the arguments a sysroot where they name none.
pub fn add_sysroot(args: Vec<String>, sysroot: Option<String>) -> (r: Vec<String>)
    ensures
        texts(r@) == with_sysroot(
            texts(args@),
            match sysroot {
                Some(path) => Some(path@),
                None => None,
            },
        ),
{
    let mut args = args;
    let ghost before = texts(args@);
    if let Some(path) = sysroot {
        if !has_sysroot(&args) {
            let ghost added = path@;
            args.push(SYSROOT_FLAG.to_owned());
            args.push(path);
            assert(texts(args@) =~= before + seq![SYSROOT_FLAG@, added]);
        }
    }
    args
}

fn has_sysroot(args: &Vec<String>) -> (r: bool)
    ensures
        r == names_sysroot(texts(args@)),
{
    let mut i: usize = 0;
    while i < args.len()
        invariant
            i <= args.len(),
            forall|j: int| 0 <= j < i ==> args@[j]@ != SYSROOT_FLAG@,
        decreases args.len() - i,
    {
        if same_text(args[i].as_str(), SYSROOT_FLAG) {
            assert(texts(args@)[i as int] == SYSROOT_FLAG@);
            return true;
        }
        i += 1;
    }
    false
}

/// With a sysroot at hand the compiler is always given one. Arguments that name one stay as
/// they are, and so does what was completed before.
pub proof fn lemma_sysroot_given_once(
    args: Seq<Seq<char>>,
    sysroot: Seq<char>,
    other: Option<Seq<char>>,
)
    ensures
        names_sysroot(with_sysroot(args, Some(sysroot))),
        names_sysroot(args) ==> with_sysroot(args, Some(sysroot)) == args,
        with_sysroot(with_sysroot(args, Some(sysroot)), other) == with_sysroot(args, Some(sysroot)),
{
    if !names_sysroot(args) {
        let all = with_sysroot(args, Some(sysroot));
        assert(all[args.len() as int] == SYSROOT_FLAG@);
    }
}

/// The compiler never sees the driver's own flag, and every other argument reaches it.
pub proof fn lemma_own_flag_taken_out(args: Seq<Seq<char>>, arg: Seq<char>)
    ensures
        without_own_flag(args).contains(arg) <==> args.contains(arg) && arg != OWN_FLAG@,
    decreases args.len(),
{
    reveal(Seq::filter);
    if args.len() > 0 {
        let rest = args.drop_last();
        lemma_own_flag_taken_out(rest, arg);
        assert(args =~= rest.push(args.last()));
        if args.contains(arg) && args.last() != arg {
            assert(rest[args.index_of(arg)] == arg);
        }
        if rest.contains(arg) {
            assert(args[rest.index_of(arg)] == arg);
        }
        let kept = without_own_flag(rest);
        let all = without_own_flag(args);
        if args.last() != OWN_FLAG@ {
            assert(all == kept.push(args.last()));
            assert(all[kept.len() as int] == args.last());
            if kept.contains(arg) {
                assert(all[kept.index_of(arg)] == arg);
            }
            if all.contains(arg) && args.last() != arg {
                assert(kept[all.index_of(arg)] == arg);
            }
        }
        assert(args[args.len() - 1] == args.last());
    }
}

/// Exactly the uses of `-Zpinvio` are taken out of the arguments, wherever they stand; all other
/// arguments stay as they are and where they are.
pub proof fn lemma_arguments_kept(before: Seq<Seq<char>>, arg: Seq<char>, after: Seq<Seq<char>>)
    ensures
        arg == "-Zpinvio"@ ==> without_own_flag(before + seq![arg] + after) == without_own_flag(
            before,
        ) + without_own_flag(after),
        arg != "-Zpinvio"@ ==> without_own_flag(before + seq![arg] + after) == without_own_flag(
            before,
        ) + seq![arg] + without_own_flag(after),
        without_own_flag(Seq::empty()) == Seq::<Seq<char>>::empty(),
    decreases after.len(),
{
    reveal(Seq::filter);
    let all = before + seq![arg] + after;
    if after.len() == 0 {
        assert(all.drop_last() =~= before);
        assert(all.last() == arg);
    } else {
        lemma_arguments_kept(before, arg, after.drop_last());
        assert(all.drop_last() =~= before + seq![arg] + after.drop_last());
        assert(all.last() == after.last());
    }
}

/// Where a sysroot is known and `--sysroot` is no argument, the flag and the path are added
/// behind all arguments. In every other case the arguments stay as they are.
pub proof fn lemma_sysroot(args: Seq<Seq<char>>, path: Seq<char>)
    ensures
        args.contains("--sysroot"@) ==> with_sysroot(args, Some(path)) == args,
        !args.contains("--sysroot"@) ==> with_sysroot(args, Some(path)) == args.push(
            "--sysroot"@,
        ).push(path),
        with_sysroot(args, None) == args,
{
    assert(args.push("--sysroot"@).push(path) =~= args + seq!["--sysroot"@, path]);
}

/// A crate goes by the name that it was given, or else by `unknown-crate`.
pub proof fn lemma_crate_name(name: &str)
    ensures
        name_or_default(Some(name)) == name@,
        name_or_default(None) == "unknown-crate"@,
{
}

/// Each use of the driver's own flag is counted, and nothing else.
pub proof fn lemma_own_flags_counted(args: Vec<String>, r: Config, more: Vec<String>, s: Config)
    requires
        call_ensures(parse_config, (&args,), r),
        call_ensures(parse_config, (&more,), s),
    ensures
        texts(more@) == texts(args@).push("-Zpinvio"@) ==> s.own_flags == r.own_flags + 1 && texts(
            s.args@,
        ) == texts(r.args@),
        forall|arg: Seq<char>|
            arg != "-Zpinvio"@ && texts(more@) == #[trigger] texts(args@).push(arg) ==> s.own_flags
                == r.own_flags && texts(s.args@) == texts(r.args@).push(arg),
        args@.len() == 0 ==> r.own_flags == 0 && r.args@.len() == 0,
{
    assert forall|arg: Seq<char>| texts(more@) == #[trigger] texts(args@).push(arg) implies texts(
        s.args@,
    ) == (if arg == "-Zpinvio"@ {
        texts(r.args@)
    } else {
        texts(r.args@).push(arg)
    }) by {
        lemma_arguments_kept(texts(args@), arg, Seq::empty());
        assert(texts(more@) =~= texts(args@) + seq![arg] + Seq::<Seq<char>>::empty());
        assert(texts(r.args@) + Seq::<Seq<char>>::empty() =~= texts(r.args@));
        assert(texts(r.args@) + seq![arg] + Seq::<Seq<char>>::empty() =~= texts(r.args@).push(arg));
    }
    assert(texts(args@).len() == args@.len() && texts(more@).len() == more@.len());
    assert(texts(r.args@).len() == r.args@.len() && texts(s.args@).len() == s.args@.len());
}

/// The crate and its entry point are announced between a rule and a remark on what is covered.
pub proof fn lemma_announced(
    calls: PinvioCompilerCalls,
    name: Option<&str>,
    entry: &str,
    r: Vec<String>,
)
    requires
        call_ensures(PinvioCompilerCalls::after_analysis, (&calls, name, entry), r),
    ensures
        r@.len() == 3,
        r@[0]@ == "===================="@,
        name is Some ==> r@[1]@ == "Crate: "@ + name->0@ + " (entry point: "@ + entry@ + ")"@,
        name is None ==> r@[1]@ == "Crate: "@ + "unknown-crate"@ + " (entry point: "@ + entry@
            + ")"@,
{
    let lines = texts(r@);
    assert(lines.len() == 3);
    assert(lines[0] == r@[0]@ && lines[1] == r@[1]@);
}

} // verus!
