//! What the subcommand does: the steps that it takes, the command lines that it runs, and when
//! it gives up.

use crate::cargo_pinvio::args::{
    after_dashes, before_dashes, dashes_at, find_dashes, flag_value, get_arg_flag_value,
    gives_flag, is_flag, lemma_dashes_split, lemma_flag_has_value, lemma_parts_around_dashes,
    slice_of,
};
use crate::cargo_pinvio::encoding::{args_json, encode_args, json_args};
use crate::cargo_pinvio::target::{
    check_order, kind_at, lemma_check_order, sort_targets, CargoTarget, TargetKind,
};
use crate::text::{ends_with, has_prefix, has_suffix, lemma_suffix, texts};
use vstd::prelude::*;
use vstd::string::*;

verus! {

/// How long a check of one target may take, in seconds.
pub const TIMEOUT_SECS: u64 = 60;

/// The exit code with which the subcommand gives up.
pub const FAILURE_CODE: i32 = 1;

pub const CLEAN_FAILED: &'static str = "cargo clean failed";

pub const CHECK_FAILED: &'static str = "Finished with non-zero exit code";

pub const CHECK_TIMED_OUT: &'static str = "Killed due to timeout";

/// What the program was started for, from its first argument.
#[derive(Clone, Copy, PartialEq, Eq, Structural, Debug)]
pub enum Mode {
    /// As the subcommand.
    Pinvio,
    /// In place of the compiler.
    Rustc,
    Unsupported,
}

/// What the program was started for.
pub open spec fn mode_of(arg: Seq<char>) -> Mode {
    if has_suffix(arg, "pinvio"@) {
        Mode::Pinvio
    } else if has_suffix(arg, "rustc"@) {
        Mode::Rustc
    } else {
        Mode::Unsupported
    }
}

/// What the program was started for, from the argument after its own name.
pub fn mode(arg: &str) -> (r: Mode)
    ensures
        r == mode_of(arg@),
{
    if ends_with(arg, "pinvio") {
        Mode::Pinvio
    } else if ends_with(arg, "rustc") {
        Mode::Rustc
    } else {
        Mode::Unsupported
    }
}

/// A step of the subcommand, on the target at a position.
#[derive(Clone, Copy, PartialEq, Eq, Structural, Debug)]
pub enum Step {
    /// Remove what was built of the package before.
    Clean(usize),
    /// Check the target.
    Check(usize),
    /// Say that the target is not supported.
    Skip(usize),
}

/// The steps for the target at a position: a library is cleaned, then checked.
pub open spec fn steps_for(targets: Seq<CargoTarget>, i: usize) -> Seq<Step> {
    match kind_at(targets, i as int) {
        TargetKind::Library => seq![Step::Clean(i), Step::Check(i)],
        TargetKind::Bin => seq![Step::Check(i)],
        TargetKind::Unknown => seq![Step::Skip(i)],
    }
}

/// The steps for the targets at the given positions.
pub open spec fn steps_along(targets: Seq<CargoTarget>, order: Seq<usize>) -> Seq<Step>
    decreases order.len(),
{
    if order.len() == 0 {
        Seq::empty()
    } else {
        steps_along(targets, order.drop_last()) + steps_for(targets, order.last())
    }
}

/// The steps of the subcommand.
pub open spec fn steps_of(targets: Seq<CargoTarget>) -> Seq<Step> {
    steps_along(targets, check_order(targets))
}

/// The steps of the subcommand, in the order in which they are taken.
pub fn into_cargo_pinvio(targets: &Vec<CargoTarget>) -> (r: Vec<Step>)
    ensures
        r@ == steps_of(targets@),
{
    let order = sort_targets(targets);
    let mut steps: Vec<Step> = Vec::new();
    let mut k: usize = 0;
    while k < order.len()
        invariant
            k <= order.len(),
            order@ == check_order(targets@),
            forall|i: int| 0 <= i < order@.len() ==> order@[i] < targets@.len(),
            steps@ =~= steps_along(targets@, order@.take(k as int)),
        decreases order.len() - k,
    {
        assert(order@.take(k + 1).drop_last() =~= order@.take(k as int));
        let i: usize = order[k];
        match TargetKind::from(&targets[i]) {
            TargetKind::Library => {
                steps.push(Step::Clean(i));
                steps.push(Step::Check(i));
            },
            TargetKind::Bin => {
                steps.push(Step::Check(i));
            },
            TargetKind::Unknown => {
                steps.push(Step::Skip(i));
            },
        }
        k += 1;
    }
    assert(order@.take(order@.len() as int) =~= order@);
    steps
}

/// What came of a step.
#[derive(Clone, Copy, PartialEq, Eq, Structural, Debug)]
pub enum Outcome {
    Skipped,
    Cleaned { success: bool },
    Exited { success: bool },
    /// The check has not ended in time.
    TimedOut,
}

/// The message with which the subcommand gives up after a step; none where it goes on.
pub open spec fn failure_text(outcome: Outcome) -> Option<Seq<char>> {
    match outcome {
        Outcome::Skipped => None,
        Outcome::Cleaned { success } => if success {
            None
        } else {
            Some(CLEAN_FAILED@)
        },
        Outcome::Exited { success } => if success {
            None
        } else {
            Some(CHECK_FAILED@)
        },
        Outcome::TimedOut => Some(CHECK_TIMED_OUT@),
    }
}

/// The message with which the subcommand gives up after a step; none where it goes on.
pub fn failure(outcome: Outcome) -> (r: Option<&'static str>)
    ensures
        match r {
            Some(message) => failure_text(outcome) == Some(message@),
            None => failure_text(outcome) is None,
        },
{
    match outcome {
        Outcome::Skipped => None,
        Outcome::Cleaned { success } => if success {
            None
        } else {
            Some(CLEAN_FAILED)
        },
        Outcome::Exited { success } => if success {
            None
        } else {
            Some(CHECK_FAILED)
        },
        Outcome::TimedOut => Some(CHECK_TIMED_OUT),
    }
}

/// What is to be done next.
#[derive(Clone, Copy, Debug)]
pub enum Action {
    /// Take the step at this position.
    Run(usize),
    /// Say the message and exit with the code; where a check is still running, kill it and wait
    /// for it to end before.
    Exit { kill_first: bool, code: i32, message: &'static str },
    /// All steps are taken.
    Done,
}

/// What is to be done next, by the text of the message.
pub ghost enum ActionView {
    Run(int),
    Exit { kill_first: bool, code: i32, message: Seq<char> },
    Done,
}

impl View for Action {
    type V = ActionView;

    open spec fn view(&self) -> ActionView {
        match *self {
            Action::Run(i) => ActionView::Run(i as int),
            Action::Exit { kill_first, code, message } => ActionView::Exit {
                kill_first,
                code,
                message: message@,
            },
            Action::Done => ActionView::Done,
        }
    }
}

/// The step at a position is to be taken, if there is one.
pub open spec fn run_at(steps: Seq<Step>, i: int) -> ActionView {
    if i < steps.len() {
        ActionView::Run(i)
    } else {
        ActionView::Done
    }
}

/// What is to be done after the step at a position: the next step where it went well, and else
/// the subcommand gives up.
pub open spec fn next_action(steps: Seq<Step>, at: int, outcome: Outcome) -> ActionView {
    match failure_text(outcome) {
        Some(message) => ActionView::Exit {
            kill_first: outcome is TimedOut,
            code: FAILURE_CODE,
            message,
        },
        None => run_at(steps, at + 1),
    }
}

/// What is to be done first.
pub fn first_action(steps: &Vec<Step>) -> (r: Action)
    ensures
        r@ == run_at(steps@, 0),
{
    if steps.len() > 0 {
        Action::Run(0)
    } else {
        Action::Done
    }
}

/// What is to be done after the step at a position.
pub fn after_step(steps: &Vec<Step>, at: usize, outcome: Outcome) -> (r: Action)
    requires
        at < steps@.len(),
    ensures
        r@ == next_action(steps@, at as int, outcome),
{
    match failure(outcome) {
        Some(message) => {
            let kill_first = match outcome {
                Outcome::TimedOut => true,
                _ => false,
            };
            Action::Exit { kill_first, code: FAILURE_CODE, message }
        },
        None => {
            if at < steps.len() - 1 {
                Action::Run(at + 1)
            } else {
                Action::Done
            }
        },
    }
}

/// What is to be done after the given outcomes, one for each step that was taken. Outcomes after
/// the end of the run count for nothing.
pub open spec fn action_after(steps: Seq<Step>, outcomes: Seq<Outcome>) -> ActionView
    decreases outcomes.len(),
{
    if outcomes.len() == 0 {
        run_at(steps, 0)
    } else {
        match action_after(steps, outcomes.drop_last()) {
            ActionView::Run(at) => next_action(steps, at, outcomes.last()),
            end => end,
        }
    }
}

/// As long as no step fails, all steps are taken, in order and each once.
pub proof fn lemma_steps_taken_in_order(steps: Seq<Step>, outcomes: Seq<Outcome>)
    requires
        outcomes.len() <= steps.len(),
        forall|k: int| 0 <= k < outcomes.len() ==> failure_text(#[trigger] outcomes[k]) is None,
    ensures
        action_after(steps, outcomes) == run_at(steps, outcomes.len() as int),
    decreases outcomes.len(),
{
    if outcomes.len() > 0 {
        let rest = outcomes.drop_last();
        assert forall|k: int| 0 <= k < rest.len() implies failure_text(#[trigger] rest[k]) is None by {
            assert(rest[k] == outcomes[k]);
        }
        lemma_steps_taken_in_order(steps, rest);
        assert(outcomes.last() == outcomes[outcomes.len() - 1]);
    }
}

/// After a step that fails no other step is taken: the subcommand exits with the failure's
/// message and code, and a check that has not ended in time is killed before that.
pub proof fn lemma_no_step_after_failure(
    steps: Seq<Step>,
    outcomes: Seq<Outcome>,
    failed: Outcome,
    more: Seq<Outcome>,
)
    requires
        action_after(steps, outcomes) is Run,
        failure_text(failed) is Some,
    ensures
        action_after(steps, outcomes.push(failed) + more) == (ActionView::Exit {
            kill_first: failed is TimedOut,
            code: 1,
            message: failure_text(failed)->0,
        }),
    decreases more.len(),
{
    let all = outcomes.push(failed) + more;
    if more.len() == 0 {
        assert(all.drop_last() =~= outcomes);
        assert(all.last() == failed);
    } else {
        assert(all.drop_last() =~= outcomes.push(failed) + more.drop_last());
        lemma_no_step_after_failure(steps, outcomes, failed, more.drop_last());
    }
}

/// The arguments after the program's name and the name of the subcommand.
pub open spec fn own_args(args: Seq<Seq<char>>) -> Seq<Seq<char>> {
    if args.len() < 2 {
        Seq::empty()
    } else {
        args.skip(2)
    }
}

/// No target triple is asked for, so that of the host has to be given.
pub open spec fn host_needed(args: Seq<Seq<char>>) -> bool {
    flag_value(before_dashes(args), "--target"@) is None
}

/// The arguments that pick a target.
pub open spec fn selection(kind: TargetKind, name: Seq<char>) -> Seq<Seq<char>> {
    match kind {
        TargetKind::Bin => seq!["--bin"@, name],
        TargetKind::Library => seq!["--lib"@],
        TargetKind::Unknown => Seq::empty(),
    }
}

/// The command line that checks a target: `check`, the target, the arguments that stand before
/// `--`, and the host's triple where no other is asked for.
pub open spec fn check_command(
    kind: TargetKind,
    name: Seq<char>,
    args: Seq<Seq<char>>,
    host: Option<Seq<char>>,
) -> Seq<Seq<char>> {
    seq!["check"@] + selection(kind, name) + before_dashes(own_args(args)) + if host_needed(args) {
        seq!["--target"@, host->0]
    } else {
        Seq::empty()
    }
}

/// Whether the host's triple has to be given.
pub fn needs_host(args: &Vec<String>) -> (r: bool)
    ensures
        r == host_needed(texts(args@)),
{
    get_arg_flag_value(args, "--target").is_none()
}

fn push_text(list: &mut Vec<String>, text: &str)
    ensures
        texts(final(list)@) == texts(old(list)@).push(text@),
{
    list.push(text.to_owned());
    assert(texts(final(list)@) =~= texts(old(list)@).push(text@));
}

fn push_texts(list: &mut Vec<String>, more: &Vec<String>)
    ensures
        texts(final(list)@) == texts(old(list)@) + texts(more@),
{
    let ghost start = texts(list@);
    let mut i: usize = 0;
    while i < more.len()
        invariant
            i <= more.len(),
            texts(list@) =~= start + texts(more@).take(i as int),
        decreases more.len() - i,
    {
        push_text(list, more[i].as_str());
        i += 1;
    }
    assert(texts(more@).take(more@.len() as int) =~= texts(more@));
}

/// Where the arguments after the program's name and the name of the subcommand begin.
fn own_start(args: &Vec<String>) -> (r: usize)
    ensures
        r <= args@.len(),
        texts(args@).skip(r as int) == own_args(texts(args@)),
{
    let r: usize = if args.len() < 2 {
        args.len()
    } else {
        2
    };
    assert(texts(args@).skip(r as int) =~= own_args(texts(args@)));
    r
}

/// The arguments of the cargo call that checks a target.
pub fn cargo_check_args(
    kind: TargetKind,
    name: &str,
    args: &Vec<String>,
    host: Option<&str>,
) -> (r: Vec<String>)
    requires
        host_needed(texts(args@)) ==> host is Some,
    ensures
        texts(r@) == check_command(
            kind,
            name@,
            texts(args@),
            match host {
                Some(h) => Some(h@),
                None => None,
            },
        ),
{
    let mut out: Vec<String> = Vec::new();
    push_text(&mut out, "check");
    match kind {
        TargetKind::Bin => {
            push_text(&mut out, "--bin");
            push_text(&mut out, name);
        },
        TargetKind::Library => {
            push_text(&mut out, "--lib");
        },
        TargetKind::Unknown => {},
    }
    assert(texts(out@) =~= seq!["check"@] + selection(kind, name@));
    let start: usize = own_start(args);
    let end: usize = find_dashes(args, start);
    let forwarded = slice_of(args, start, end);
    assert(texts(forwarded@) =~= before_dashes(own_args(texts(args@))));
    push_texts(&mut out, &forwarded);
    let ghost so_far = texts(out@);
    if needs_host(args) {
        if let Some(host) = host {
            push_text(&mut out, "--target");
            push_text(&mut out, host);
            assert(texts(out@) =~= so_far + seq!["--target"@, host@]);
        }
    } else {
        assert(texts(out@) =~= so_far + Seq::<Seq<char>>::empty());
    }
    out
}

/// The arguments of the cargo call that removes what was built of a package before.
pub fn cargo_clean_args(package: &str, host: &str) -> (r: Vec<String>)
    ensures
        texts(r@) == seq!["clean"@, "-p"@, package@, "--target"@, host@],
{
    let mut out: Vec<String> = Vec::new();
    push_text(&mut out, "clean");
    push_text(&mut out, "-p");
    push_text(&mut out, package);
    push_text(&mut out, "--target");
    push_text(&mut out, host);
    assert(texts(out@) =~= seq!["clean"@, "-p"@, package@, "--target"@, host@]);
    out
}

/// The arguments for the analysis itself: those after `--`.
pub fn analysis_args(args: &Vec<String>) -> (r: Vec<String>)
    ensures
        texts(r@) == after_dashes(own_args(texts(args@))),
{
    let start: usize = own_start(args);
    let end: usize = find_dashes(args, start);
    if end < args.len() {
        let r = slice_of(args, end + 1, args.len());
        assert(texts(r@) =~= after_dashes(own_args(texts(args@))));
        r
    } else {
        let r: Vec<String> = Vec::new();
        assert(texts(r@) =~= after_dashes(own_args(texts(args@))));
        r
    }
}

/// The arguments for the analysis itself, as the text that is handed to the compiler call.
pub fn pinvio_args(args: &Vec<String>) -> (r: String)
    ensures
        r@ == args_json(after_dashes(own_args(texts(args@)))),
        json_args(r@) == Some(after_dashes(own_args(texts(args@)))),
{
    encode_args(&analysis_args(args))
}

/// The line that announces the check of a target.
pub fn running_line(kind: TargetKind, name: &str) -> (r: String)
    ensures
        r@ == "==> Running pinvio for target "@ + kind.label_text() + ":"@ + name@,
{
    let mut line = "==> Running pinvio for target ".to_owned();
    line.append(kind.label());
    line.append(":");
    line.append(name);
    line
}

/// Each argument of the subcommand goes either to cargo or to the analysis: the one before
/// `--`, the other after it.
pub proof fn lemma_args_are_shared_out(args: Seq<Seq<char>>)
    ensures
        dashes_at(own_args(args)) < own_args(args).len() ==> own_args(args) == before_dashes(
            own_args(args),
        ) + seq!["--"@] + after_dashes(own_args(args)),
        dashes_at(own_args(args)) == own_args(args).len() ==> own_args(args) == before_dashes(
            own_args(args),
        ) && after_dashes(own_args(args)) == Seq::<Seq<char>>::empty(),
{
    lemma_dashes_split(own_args(args));
}

/// A step stands where it belongs: what is cleaned is a library and is checked next, what is
/// checked is supported and, where it is a library, was cleaned just before, and what is skipped
/// is not supported.
pub open spec fn in_place(targets: Seq<CargoTarget>, steps: Seq<Step>, s: int) -> bool {
    match steps[s] {
        Step::Clean(i) => {
            &&& kind_at(targets, i as int) == TargetKind::Library
            &&& s + 1 < steps.len()
            &&& steps[s + 1] == Step::Check(i)
        },
        Step::Check(i) => {
            &&& kind_at(targets, i as int) != TargetKind::Unknown
            &&& kind_at(targets, i as int) == TargetKind::Library ==> s > 0 && steps[s - 1]
                == Step::Clean(i)
        },
        Step::Skip(i) => kind_at(targets, i as int) == TargetKind::Unknown,
    }
}

/// A library is cleaned right before it is checked, and nothing else is ever cleaned.
pub proof fn lemma_clean_before_check(targets: Seq<CargoTarget>, order: Seq<usize>, s: int)
    requires
        0 <= s < steps_along(targets, order).len(),
    ensures
        in_place(targets, steps_along(targets, order), s),
    decreases order.len(),
{
    let rest = steps_along(targets, order.drop_last());
    let added = steps_for(targets, order.last());
    let all = steps_along(targets, order);
    assert(all == rest + added);
    if s < rest.len() {
        lemma_clean_before_check(targets, order.drop_last(), s);
        assert(all[s] == rest[s]);
        if s > 0 {
            assert(all[s - 1] == rest[s - 1]);
        }
        if s + 1 < rest.len() {
            assert(all[s + 1] == rest[s + 1]);
        }
    } else {
        assert(all[s] == added[s - rest.len()]);
        if s > rest.len() {
            assert(all[s - 1] == added[s - 1 - rest.len()]);
        }
        if s + 1 < all.len() {
            assert(all[s + 1] == added[s + 1 - rest.len()]);
        }
    }
}

/// The target that a step is on.
pub open spec fn target_of(step: Step) -> usize {
    match step {
        Step::Clean(i) => i,
        Step::Check(i) => i,
        Step::Skip(i) => i,
    }
}

/// What is done with a target in the end: a supported one is checked, another one is skipped.
pub open spec fn main_step(targets: Seq<CargoTarget>, i: usize) -> Step {
    if kind_at(targets, i as int) == TargetKind::Unknown {
        Step::Skip(i)
    } else {
        Step::Check(i)
    }
}

/// Every target in the order is dealt with.
proof fn lemma_every_target_has_a_step(targets: Seq<CargoTarget>, order: Seq<usize>, i: usize)
    requires
        order.contains(i),
    ensures
        steps_along(targets, order).contains(main_step(targets, i)),
    decreases order.len(),
{
    let rest = steps_along(targets, order.drop_last());
    let all = steps_along(targets, order);
    let added = steps_for(targets, order.last());
    let wanted = main_step(targets, i);
    if order.last() == i {
        assert(all[rest.len() + added.len() - 1] == wanted);
    } else {
        let at = order.index_of(i);
        assert(order.drop_last()[at] == i);
        lemma_every_target_has_a_step(targets, order.drop_last(), i);
        assert(all[rest.index_of(wanted)] == wanted);
    }
}

/// The steps follow the order of the targets.
proof fn lemma_step_position(targets: Seq<CargoTarget>, order: Seq<usize>, s: int) -> (k: int)
    requires
        0 <= s < steps_along(targets, order).len(),
    ensures
        0 <= k < order.len(),
        order[k] == target_of(steps_along(targets, order)[s]),
    decreases order.len(),
{
    let rest = steps_along(targets, order.drop_last());
    if s < rest.len() {
        lemma_step_position(targets, order.drop_last(), s)
    } else {
        order.len() - 1
    }
}

/// Of two steps the later one is on a later target, or checks what the other one cleans.
proof fn lemma_step_positions(targets: Seq<CargoTarget>, order: Seq<usize>, s: int, t: int) -> (r: (
    int,
    int,
))
    requires
        0 <= s < t < steps_along(targets, order).len(),
    ensures
        0 <= r.0 <= r.1 < order.len(),
        order[r.0] == target_of(steps_along(targets, order)[s]),
        order[r.1] == target_of(steps_along(targets, order)[t]),
        r.0 == r.1 ==> steps_along(targets, order)[s] is Clean && steps_along(
            targets,
            order,
        )[t] is Check,
    decreases order.len(),
{
    let rest = steps_along(targets, order.drop_last());
    if t < rest.len() {
        lemma_step_positions(targets, order.drop_last(), s, t)
    } else if s < rest.len() {
        (lemma_step_position(targets, order.drop_last(), s), order.len() - 1)
    } else {
        (order.len() - 1, order.len() - 1)
    }
}

/// Every target gets its steps once: a supported one is checked, another one is skipped. What
/// is checked is first all libraries and then all executables.
pub proof fn lemma_steps(targets: Seq<CargoTarget>)
    requires
        targets.len() <= usize::MAX,
    ensures
        forall|i: usize|
            i < targets.len() ==> steps_of(targets).contains(#[trigger] main_step(targets, i)),
        steps_of(targets).no_duplicates(),
        forall|s: int, t: int|
            #![trigger steps_of(targets)[s], steps_of(targets)[t]]
            0 <= s < t < steps_of(targets).len() ==> kind_at(
                targets,
                target_of(steps_of(targets)[s]) as int,
            ).rank() <= kind_at(targets, target_of(steps_of(targets)[t]) as int).rank(),
{
    let order = check_order(targets);
    let steps = steps_of(targets);
    lemma_check_order(targets);
    assert forall|i: usize| i < targets.len() implies steps.contains(
        #[trigger] main_step(targets, i),
    ) by {
        assert(order.contains(i));
        lemma_every_target_has_a_step(targets, order, i);
    }
    assert forall|s: int, t: int|
        #![trigger steps[s], steps[t]]
        0 <= s < t < steps.len() implies steps[s] != steps[t] && kind_at(
        targets,
        target_of(steps[s]) as int,
    ).rank() <= kind_at(targets, target_of(steps[t]) as int).rank() by {
        let (k, m) = lemma_step_positions(targets, order, s, t);
        if k < m {
            assert(order[k] != order[m]);
        }
    }
}

/// A flag that is given somewhere, with a value, has a value.
proof fn lemma_flag_given(args: Seq<Seq<char>>, name: Seq<char>, i: int)
    requires
        0 <= i < args.len(),
        has_prefix(args[i], name),
        args[i].len() == name.len() ==> i + 1 < args.len(),
        args[i].len() > name.len() ==> args[i][name.len() as int] == '=',
    ensures
        flag_value(args, name) is Some,
    decreases i,
{
    if i > 0 {
        assert(args.skip(1)[i - 1] == args[i]);
        lemma_flag_given(args.skip(1), name, i - 1);
    }
}

/// Where a flag has a value, it is given at some place.
proof fn lemma_flag_place(args: Seq<Seq<char>>, name: Seq<char>) -> (i: int)
    requires
        flag_value(args, name) is Some,
    ensures
        0 <= i < args.len(),
        has_prefix(args[i], name),
        args[i].len() == name.len() ==> i + 1 < args.len(),
        args[i].len() > name.len() ==> args[i][name.len() as int] == '=',
    decreases args.len(),
{
    if has_prefix(args[0], name) && (args[0].len() == name.len() || args[0][name.len() as int]
        == '=') {
        0
    } else {
        let i = lemma_flag_place(args.skip(1), name);
        assert(args.skip(1)[i] == args[i + 1]);
        i + 1
    }
}

/// The cargo call that checks a target always names a triple: the one that was asked for, or
/// that of the host. By that triple the calls of the compiler for the target are recognised.
pub proof fn lemma_triple_always_named(
    kind: TargetKind,
    name: Seq<char>,
    args: Seq<Seq<char>>,
    host: Seq<char>,
)
    requires
        args.len() >= 2,
        !has_prefix(args[0], "--target"@),
        !has_prefix(args[1], "--target"@),
    ensures
        flag_value(check_command(kind, name, args, Some(host)), "--target"@) is Some,
{
    let flag = "--target"@;
    let command = check_command(kind, name, args, Some(host));
    let own = own_args(args);
    let head = seq!["check"@] + selection(kind, name);
    if host_needed(args) {
        let i = command.len() - 2;
        assert(command[i] == flag);
        assert(flag.skip(0) =~= flag);
        assert(has_prefix(flag, flag));
        lemma_flag_given(command, flag, i);
    } else {
        let given = before_dashes(args);
        lemma_dashes_split(args);
        let i = lemma_flag_place(given, flag);
        assert(given[i] == args[i]);
        assert(i >= 2);
        lemma_own_before_dashes(args);
        let forwarded = before_dashes(own);
        assert(forwarded[i - 2] == args[i]);
        assert(command =~= head + forwarded);
        assert(command[head.len() + i - 2] == args[i]);
        lemma_flag_given(command, flag, head.len() + i - 2);
    }
}

/// Where the first `--` comes after the first two arguments, it is the first of those behind
/// them.
proof fn lemma_own_before_dashes(args: Seq<Seq<char>>)
    requires
        dashes_at(args) >= 2,
    ensures
        args.len() >= 2,
        dashes_at(own_args(args)) == dashes_at(args) - 2,
{
    lemma_dashes_split(args);
    assert(dashes_at(args) == 1 + dashes_at(args.skip(1)));
    assert(dashes_at(args.skip(1)) == 1 + dashes_at(args.skip(1).skip(1)));
    assert(args.skip(1).skip(1) =~= args.skip(2));
}

/// The program acts as the subcommand where its argument ends with `pinvio`, and in place of the
/// compiler where it ends with `rustc`, whatever stands before. Any other argument is
/// unsupported.
pub proof fn lemma_mode(arg: Seq<char>)
    ensures
        mode_of(arg) == Mode::Pinvio <==> exists|start: Seq<char>|
            arg == #[trigger] (start + "pinvio"@),
        mode_of(arg) == Mode::Rustc <==> exists|start: Seq<char>|
            arg == #[trigger] (start + "rustc"@),
{
    lemma_suffix(arg, "pinvio"@);
    lemma_suffix(arg, "rustc"@);
    reveal_strlit("pinvio");
    reveal_strlit("rustc");
    if has_suffix(arg, "pinvio"@) && has_suffix(arg, "rustc"@) {
        let a = choose|start: Seq<char>| arg == #[trigger] (start + "pinvio"@);
        let b = choose|start: Seq<char>| arg == #[trigger] (start + "rustc"@);
        assert(arg[arg.len() - 1] == 'o') by {
            assert((a + "pinvio"@)[arg.len() - 1] == "pinvio"@[5]);
        }
        assert(arg[arg.len() - 1] == 'c') by {
            assert((b + "rustc"@)[arg.len() - 1] == "rustc"@[4]);
        }
    }
}

/// After a step that was skipped or went well comes the next one, or the end. A failed clean, a
/// failed check and a check that took too long each end the run with code one and a message of
/// their own; only in the last case there is something to kill.
pub proof fn lemma_after_each_outcome(steps: Seq<Step>, at: int)
    requires
        0 <= at < steps.len(),
    ensures
        at + 1 < steps.len() ==> {
            &&& next_action(steps, at, Outcome::Skipped) == ActionView::Run(at + 1)
            &&& next_action(steps, at, (Outcome::Cleaned { success: true })) == ActionView::Run(
                at + 1,
            )
            &&& next_action(steps, at, (Outcome::Exited { success: true })) == ActionView::Run(
                at + 1,
            )
        },
        at + 1 == steps.len() ==> {
            &&& next_action(steps, at, Outcome::Skipped) == ActionView::Done
            &&& next_action(steps, at, (Outcome::Cleaned { success: true })) == ActionView::Done
            &&& next_action(steps, at, (Outcome::Exited { success: true })) == ActionView::Done
        },
        next_action(steps, at, (Outcome::Cleaned { success: false })) == (ActionView::Exit {
            kill_first: false,
            code: 1,
            message: "cargo clean failed"@,
        }),
        next_action(steps, at, (Outcome::Exited { success: false })) == (ActionView::Exit {
            kill_first: false,
            code: 1,
            message: "Finished with non-zero exit code"@,
        }),
        next_action(steps, at, Outcome::TimedOut) == (ActionView::Exit {
            kill_first: true,
            code: 1,
            message: "Killed due to timeout"@,
        }),
        run_at(steps, 0) == ActionView::Run(0),
        run_at(Seq::empty(), 0) == ActionView::Done,
{
}

/// A library among the targets is cleaned and then checked, an executable is checked, and
/// anything else is skipped; the targets before it come before, and those after it come after.
pub proof fn lemma_steps_target_by_target(
    targets: Seq<CargoTarget>,
    before: Seq<usize>,
    i: usize,
    after: Seq<usize>,
)
    ensures
        TargetKind::of_kinds(targets[i as int].kinds@) == TargetKind::Library ==> steps_along(
            targets,
            before + seq![i] + after,
        ) == steps_along(targets, before) + seq![Step::Clean(i), Step::Check(i)] + steps_along(
            targets,
            after,
        ),
        TargetKind::of_kinds(targets[i as int].kinds@) == TargetKind::Bin ==> steps_along(
            targets,
            before + seq![i] + after,
        ) == steps_along(targets, before) + seq![Step::Check(i)] + steps_along(targets, after),
        TargetKind::of_kinds(targets[i as int].kinds@) == TargetKind::Unknown ==> steps_along(
            targets,
            before + seq![i] + after,
        ) == steps_along(targets, before) + seq![Step::Skip(i)] + steps_along(targets, after),
    decreases after.len(),
{
    let all = before + seq![i] + after;
    if after.len() == 0 {
        assert(all.drop_last() =~= before);
        assert(all.last() == i);
        assert(steps_along(targets, all) =~= steps_along(targets, before) + steps_for(targets, i)
            + steps_along(targets, after));
    } else {
        lemma_steps_target_by_target(targets, before, i, after.drop_last());
        assert(all.drop_last() =~= before + seq![i] + after.drop_last());
        assert(all.last() == after.last());
        assert(steps_along(targets, all) =~= steps_along(targets, before) + steps_for(targets, i)
            + (steps_along(targets, after.drop_last()) + steps_for(targets, after.last())));
    }
}

/// The cargo call that checks a target: the target is picked by what it is, what stands before
/// `--` is handed on as it is, and what stands after it is not. The host's triple comes last,
/// and only where no triple is given.
pub proof fn lemma_check_command(
    name: Seq<char>,
    program: Seq<char>,
    subcommand: Seq<char>,
    forwarded: Seq<Seq<char>>,
    rest: Seq<Seq<char>>,
    host: Seq<char>,
)
    requires
        program != "--"@ && !is_flag(program, "--target"@),
        subcommand != "--"@ && !is_flag(subcommand, "--target"@),
        forall|i: int| 0 <= i < forwarded.len() ==> #[trigger] forwarded[i] != "--"@,
    ensures
        ({
            let plain = seq![program, subcommand] + forwarded;
            let split = plain + seq!["--"@] + rest;
            let triple = if gives_flag(forwarded, "--target"@) {
                Seq::empty()
            } else {
                seq!["--target"@, host]
            };
            let library = seq!["check"@, "--lib"@] + forwarded + triple;
            let executable = seq!["check"@, "--bin"@, name] + forwarded + triple;
            &&& check_command(TargetKind::Library, name, plain, Some(host)) == library
            &&& check_command(TargetKind::Library, name, split, Some(host)) == library
            &&& check_command(TargetKind::Bin, name, plain, Some(host)) == executable
            &&& check_command(TargetKind::Bin, name, split, Some(host)) == executable
            &&& after_dashes(own_args(split)) == rest
            &&& after_dashes(own_args(plain)) == Seq::<Seq<char>>::empty()
        }),
{
    let flag = "--target"@;
    let plain = seq![program, subcommand] + forwarded;
    let split = plain + seq!["--"@] + rest;
    assert forall|i: int| 0 <= i < plain.len() implies #[trigger] plain[i] != "--"@ by {
        if i >= 2 {
            assert(plain[i] == forwarded[i - 2]);
        }
    }
    assert(own_args(plain) =~= forwarded);
    assert(own_args(split) =~= forwarded + seq!["--"@] + rest);
    lemma_parts_around_dashes(plain, rest);
    lemma_parts_around_dashes(forwarded, rest);
    lemma_flag_has_value(plain, flag);
    assert(gives_flag(plain, flag) == gives_flag(forwarded, flag)) by {
        if gives_flag(forwarded, flag) {
            let i = choose|i: int|
                0 <= i < forwarded.len() && is_flag(#[trigger] forwarded[i], flag) && (forwarded[i]
                    == flag ==> i + 1 < forwarded.len());
            assert(plain[i + 2] == forwarded[i]);
        }
        if gives_flag(plain, flag) {
            let i = choose|i: int|
                0 <= i < plain.len() && is_flag(#[trigger] plain[i], flag) && (plain[i] == flag
                    ==> i + 1 < plain.len());
            assert(i >= 2);
            assert(forwarded[i - 2] == plain[i]);
        }
    }
    assert(seq!["check"@] + selection(TargetKind::Library, name) =~= seq!["check"@, "--lib"@]);
    assert(seq!["check"@] + selection(TargetKind::Bin, name) =~= seq!["check"@, "--bin"@, name]);
}

/// What was built of a package is removed for the host's triple, and of that package alone.
pub proof fn lemma_clean_command(package: &str, host: &str, r: Vec<String>)
    requires
        call_ensures(cargo_clean_args, (package, host), r),
    ensures
        r@.len() == 5,
        r@[0]@ == "clean"@,
        r@[1]@ == "-p"@,
        r@[2]@ == package@,
        r@[3]@ == "--target"@,
        r@[4]@ == host@,
{
    let all = texts(r@);
    assert(all.len() == 5);
    assert(all[0] == r@[0]@ && all[1] == r@[1]@ && all[2] == r@[2]@ && all[3] == r@[3]@ && all[4]
        == r@[4]@);
}

/// The line that announces a check names what the target is and the target itself.
pub proof fn lemma_running_line(kind: TargetKind, name: &str, r: String)
    requires
        call_ensures(running_line, (kind, name), r),
    ensures
        kind == TargetKind::Library ==> r@ == "==> Running pinvio for target "@ + "lib"@ + ":"@
            + name@,
        kind == TargetKind::Bin ==> r@ == "==> Running pinvio for target "@ + "bin"@ + ":"@ + name@,
        kind == TargetKind::Unknown ==> r@ == "==> Running pinvio for target "@ + "unknown"@ + ":"@
            + name@,
{
}

} // verus!
