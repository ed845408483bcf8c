//! What happens in place of a call of the compiler.

use crate::cargo_pinvio::args::{
    any_arg_flag, before_dashes, flag_value, flag_values, get_arg_flag_value,
    get_first_arg_with_rs_suffix, gives_flag, is_rust_file, lemma_flag_has_value,
    lemma_parts_around_dashes, names_source, slice_of,
};
use crate::cargo_pinvio::encoding::{decode_args, json_args, DecodeError};
use crate::cargo_pinvio::plan::{own_args, pinvio_args};
use crate::cargo_pinvio::target::{is_lib_name, TargetKind};
use crate::search::{first_where, lemma_first_absent};
use crate::text::{lemma_suffix, texts};
use vstd::prelude::*;

verus! {

/// The exit code where a command gives none.
pub const NO_CODE: i32 = 42;

/// What is run in place of a call of the compiler: the analysis, the compiler, or first the one
/// and then the other.
#[derive(Clone, Copy, PartialEq, Eq, Structural, Debug)]
pub struct RustcPlan {
    pub analyse: bool,
    pub compile: bool,
}

/// A target triple is given.
pub open spec fn has_target_flag(args: Seq<Seq<char>>) -> bool {
    flag_value(before_dashes(args), "--target"@) is Some
}

/// A source file is given.
pub open spec fn has_source(args: Seq<Seq<char>>) -> bool {
    first_where(before_dashes(args), is_rust_file()) is Some
}

/// The call compiles a library.
pub open spec fn builds_library(args: Seq<Seq<char>>) -> bool {
    exists|i: int|
        0 <= i < flag_values(before_dashes(args), "--crate-type"@).len() && is_lib_name(
            #[trigger] flag_values(before_dashes(args), "--crate-type"@)[i],
        )
}

/// The call compiles a target of the package that is checked, not a dependency or a build
/// script: a triple is given, and the source file by a relative path.
pub open spec fn is_direct(args: Seq<Seq<char>>, source_is_relative: bool) -> bool {
    has_target_flag(args) && has_source(args) && source_is_relative
}

/// What is run in place of a call of the compiler.
pub open spec fn plan_of(args: Seq<Seq<char>>, source_is_relative: bool) -> RustcPlan {
    RustcPlan {
        analyse: is_direct(args, source_is_relative),
        compile: !is_direct(args, source_is_relative) || builds_library(args),
    }
}

/// The source file that the call compiles.
pub fn source_file(args: &Vec<String>) -> (r: Option<String>)
    ensures
        match r {
            Some(file) => first_where(before_dashes(texts(args@)), is_rust_file()) == Some(file@),
            None => !has_source(texts(args@)),
        },
{
    get_first_arg_with_rs_suffix(args)
}

/// Whether the call compiles a library.
pub fn is_crate_type_lib(args: &Vec<String>) -> (r: bool)
    ensures
        r == builds_library(texts(args@)),
{
    let check = |v: &str| -> (r: bool)
        ensures
            r == is_lib_name(v@),
        { TargetKind::is_lib_str(v) };
    any_arg_flag(args, "--crate-type", check)
}

/// What is run in place of a call of the compiler, given whether the path of the source file is
/// relative.
pub fn into_cargo_rustc(args: &Vec<String>, source_is_relative: bool) -> (r: RustcPlan)
    ensures
        r == plan_of(texts(args@), source_is_relative),
{
    let direct = get_arg_flag_value(args, "--target").is_some() && source_file(args).is_some()
        && source_is_relative;
    RustcPlan { analyse: direct, compile: !direct || is_crate_type_lib(args) }
}

/// The arguments that were meant for the compiler.
pub fn compiler_args(args: &Vec<String>) -> (r: Vec<String>)
    ensures
        texts(r@) == own_args(texts(args@)),
{
    if args.len() < 2 {
        let r: Vec<String> = Vec::new();
        assert(texts(r@) =~= own_args(texts(args@)));
        r
    } else {
        let r = slice_of(args, 2, args.len());
        assert(texts(r@) =~= own_args(texts(args@)));
        r
    }
}

/// The arguments that were meant for the compiler, and behind them the given ones.
pub fn extended_args(args: &Vec<String>, more: Vec<String>) -> (r: Vec<String>)
    ensures
        texts(r@) == own_args(texts(args@)) + texts(more@),
{
    let mut out = compiler_args(args);
    let ghost first = out@;
    let mut more = more;
    let ghost second = more@;
    out.append(&mut more);
    assert(texts(out@) =~= texts(first) + texts(second));
    out
}

/// The arguments of the analysis: those that were meant for the compiler, and those that the
/// subcommand handed over as text.
pub fn analyser_args(args: &Vec<String>, handed_over: &str) -> (r: Result<Vec<String>, DecodeError>)
    ensures
        match r {
            Ok(all) => {
                &&& json_args(handed_over@) is Some
                &&& texts(all@) == own_args(texts(args@)) + json_args(handed_over@)->0
            },
            Err(_) => json_args(handed_over@) is None,
        },
{
    match decode_args(handed_over) {
        Ok(more) => Ok(extended_args(args, more)),
        Err(e) => Err(e),
    }
}

/// The code with which the program exits after a command; none where it goes on.
pub open spec fn code_after(success: bool, code: Option<i32>) -> Option<i32> {
    if success {
        None
    } else {
        match code {
            Some(c) => Some(c),
            None => Some(NO_CODE),
        }
    }
}

/// The code with which the program exits after a command; none where it goes on.
pub fn exit_code(success: bool, code: Option<i32>) -> (r: Option<i32>)
    ensures
        r == code_after(success, code),
{
    if success {
        None
    } else {
        match code {
            Some(c) => Some(c),
            None => Some(NO_CODE),
        }
    }
}

/// A program that is run in place of the compiler.
#[derive(Clone, Copy, PartialEq, Eq, Structural, Debug)]
pub enum Command {
    Analyser,
    Compiler,
}

/// What is to be done next in place of a call of the compiler.
#[derive(Clone, Copy, PartialEq, Eq, Structural, Debug)]
pub enum CallAction {
    Run(Command),
    Exit(i32),
    Done,
}

/// The compiler is to be run, if the plan says so.
pub open spec fn compile_next(plan: RustcPlan) -> CallAction {
    if plan.compile {
        CallAction::Run(Command::Compiler)
    } else {
        CallAction::Done
    }
}

/// What is to be done first.
pub open spec fn first_of(plan: RustcPlan) -> CallAction {
    if plan.analyse {
        CallAction::Run(Command::Analyser)
    } else {
        compile_next(plan)
    }
}

/// What is to be done after a command: a failed one ends the program, and the compiler comes
/// after the analysis.
pub open spec fn next_of(
    plan: RustcPlan,
    command: Command,
    success: bool,
    code: Option<i32>,
) -> CallAction {
    match code_after(success, code) {
        Some(c) => CallAction::Exit(c),
        None => match command {
            Command::Analyser => compile_next(plan),
            Command::Compiler => CallAction::Done,
        },
    }
}

/// What is to be done first in place of a call of the compiler.
pub fn first_call(plan: RustcPlan) -> (r: CallAction)
    ensures
        r == first_of(plan),
{
    if plan.analyse {
        CallAction::Run(Command::Analyser)
    } else if plan.compile {
        CallAction::Run(Command::Compiler)
    } else {
        CallAction::Done
    }
}

/// What is to be done after a command that ended with success or not, and with a code.
pub fn after_call(
    plan: RustcPlan,
    command: Command,
    success: bool,
    code: Option<i32>,
) -> (r: CallAction)
    ensures
        r == next_of(plan, command, success, code),
{
    match exit_code(success, code) {
        Some(c) => CallAction::Exit(c),
        None => match command {
            Command::Analyser => {
                if plan.compile {
                    CallAction::Run(Command::Compiler)
                } else {
                    CallAction::Done
                }
            },
            Command::Compiler => CallAction::Done,
        },
    }
}

/// Whether a path is relative, from `std::path::Path::is_relative`. Nothing is claimed of the
/// answer: which paths are relative depends on the platform.
#[verifier::external_body]
fn is_relative(file: &str) -> bool {
    std::path::Path::new(file).is_relative()
}

/// What is run in place of a call of the compiler. Whether the path of the source file is
/// relative is for the platform to say; where there is no such file, it makes no difference.
pub fn plan_call(args: &Vec<String>) -> (r: RustcPlan)
    ensures
        r == plan_of(texts(args@), true) || r == plan_of(texts(args@), false),
        !has_source(texts(args@)) || !has_target_flag(texts(args@)) ==> r == (RustcPlan {
            analyse: false,
            compile: true,
        }),
{
    let source_is_relative = match source_file(args) {
        Some(file) => is_relative(file.as_str()),
        None => false,
    };
    into_cargo_rustc(args, source_is_relative)
}

/// After a failed command nothing more is run: the program exits, with a code even where the
/// command gave none. So the compiler is never run after a failed analysis.
pub proof fn lemma_failed_command_ends(plan: RustcPlan, command: Command, code: Option<i32>)
    ensures
        next_of(plan, command, false, code) == CallAction::Exit(
            match code {
                Some(c) => c,
                None => 42,
            },
        ),
{
}

/// Where no command fails, what the plan names is run, the analysis first, and nothing else.
pub proof fn lemma_plan_is_run(plan: RustcPlan, code: Option<i32>)
    ensures
        plan.analyse ==> first_of(plan) == CallAction::Run(Command::Analyser) && next_of(
            plan,
            Command::Analyser,
            true,
            code,
        ) == compile_next(plan),
        !plan.analyse ==> first_of(plan) == compile_next(plan),
        next_of(plan, Command::Compiler, true, code) == CallAction::Done,
{
}

/// A call of the compiler is never swallowed: the analysis or the compiler is run. What is not
/// a target of the package is compiled and not analysed, and a library that is analysed is
/// compiled as well, so that what depends on it finds it.
pub proof fn lemma_no_call_is_lost(args: Seq<Seq<char>>, source_is_relative: bool)
    ensures
        plan_of(args, source_is_relative).analyse || plan_of(args, source_is_relative).compile,
        !is_direct(args, source_is_relative) ==> !plan_of(args, source_is_relative).analyse
            && plan_of(args, source_is_relative).compile,
        builds_library(args) ==> plan_of(args, source_is_relative).compile,
{
}

/// A call of the compiler is analysed exactly when a triple and a source file are given before
/// `--` and the file's path is relative. It is compiled exactly when it is not analysed or when
/// one of the crate types before `--` is that of a library.
pub proof fn lemma_plan(args: Seq<Seq<char>>, source_is_relative: bool)
    ensures
        plan_of(args, source_is_relative).analyse <==> source_is_relative && gives_flag(
            before_dashes(args),
            "--target"@,
        ) && exists|i: int|
            0 <= i < before_dashes(args).len() && names_source(#[trigger] before_dashes(args)[i]),
        plan_of(args, source_is_relative).compile <==> {
            ||| !plan_of(args, source_is_relative).analyse
            ||| flag_values(before_dashes(args), "--crate-type"@).contains("lib"@)
            ||| flag_values(before_dashes(args), "--crate-type"@).contains("rlib"@)
            ||| flag_values(before_dashes(args), "--crate-type"@).contains("staticlib"@)
        },
{
    let given = before_dashes(args);
    let types = flag_values(given, "--crate-type"@);
    lemma_flag_has_value(given, "--target"@);
    lemma_first_absent(given, is_rust_file());
    assert forall|i: int| 0 <= i < given.len() implies is_rust_file()(#[trigger] given[i])
        == names_source(given[i]) by {
        lemma_suffix(given[i], ".rs"@);
    }
    if builds_library(args) {
        let i = choose|i: int| 0 <= i < types.len() && is_lib_name(#[trigger] types[i]);
        assert(types.contains(types[i]));
    }
    if types.contains("lib"@) {
        assert(is_lib_name(types[types.index_of("lib"@)]));
    }
    if types.contains("rlib"@) {
        assert(is_lib_name(types[types.index_of("rlib"@)]));
    }
    if types.contains("staticlib"@) {
        assert(is_lib_name(types[types.index_of("staticlib"@)]));
    }
}

/// What is run first, and what comes after a command that went well, for every plan.
pub proof fn lemma_commands_in_order(compile: bool, code: Option<i32>)
    ensures
        first_of((RustcPlan { analyse: true, compile })) == CallAction::Run(Command::Analyser),
        first_of((RustcPlan { analyse: false, compile: true })) == CallAction::Run(
            Command::Compiler,
        ),
        first_of((RustcPlan { analyse: false, compile: false })) == CallAction::Done,
        next_of((RustcPlan { analyse: true, compile: true }), Command::Analyser, true, code)
            == CallAction::Run(Command::Compiler),
        next_of((RustcPlan { analyse: true, compile: false }), Command::Analyser, true, code)
            == CallAction::Done,
        next_of((RustcPlan { analyse: true, compile }), Command::Compiler, true, code)
            == CallAction::Done,
        next_of((RustcPlan { analyse: false, compile }), Command::Compiler, true, code)
            == CallAction::Done,
{
}

/// What was meant for the compiler is everything behind the first two arguments, a `--` and what
/// comes after it included.
pub proof fn lemma_compiler_args(first: Seq<char>, second: Seq<char>, rest: Seq<Seq<char>>)
    ensures
        own_args(seq![first, second] + rest) == rest,
        own_args(seq![first]) == Seq::<Seq<char>>::empty(),
        own_args(Seq::empty()) == Seq::<Seq<char>>::empty(),
{
    assert(own_args(seq![first, second] + rest) =~= rest);
}

/// What the user writes after the first `--` reaches the analysis, behind all that was meant for
/// the compiler.
pub proof fn lemma_arguments_reach_analysis(
    args: Vec<String>,
    program: Seq<char>,
    subcommand: Seq<char>,
    forwarded: Seq<Seq<char>>,
    wanted: Seq<Seq<char>>,
    text: String,
    call: Vec<String>,
    handed_over: &str,
    r: Result<Vec<String>, DecodeError>,
)
    requires
        texts(args@) == seq![program, subcommand] + forwarded + seq!["--"@] + wanted,
        forall|i: int| 0 <= i < forwarded.len() ==> #[trigger] forwarded[i] != "--"@,
        call_ensures(pinvio_args, (&args,), text),
        handed_over@ == text@,
        call@.len() >= 2,
        call_ensures(analyser_args, (&call, handed_over), r),
    ensures
        r is Ok,
        texts(r->Ok_0@) == texts(call@).skip(2) + wanted,
{
    assert(own_args(texts(args@)) =~= forwarded + seq!["--"@] + wanted);
    lemma_parts_around_dashes(forwarded, wanted);
}

/// Whatever the platform says of the source file: a call is analysed only where a triple and a
/// source file are given, and it is compiled where it is not analysed or builds a library.
pub proof fn lemma_planned_call(args: Vec<String>, r: RustcPlan)
    requires
        call_ensures(plan_call, (&args,), r),
    ensures
        r.analyse ==> gives_flag(before_dashes(texts(args@)), "--target"@) && exists|i: int|
            0 <= i < before_dashes(texts(args@)).len() && names_source(
                #[trigger] before_dashes(texts(args@))[i],
            ),
        r.compile <==> {
            ||| !r.analyse
            ||| flag_values(before_dashes(texts(args@)), "--crate-type"@).contains("lib"@)
            ||| flag_values(before_dashes(texts(args@)), "--crate-type"@).contains("rlib"@)
            ||| flag_values(before_dashes(texts(args@)), "--crate-type"@).contains("staticlib"@)
        },
{
    lemma_plan(texts(args@), true);
    lemma_plan(texts(args@), false);
}

} // verus!
