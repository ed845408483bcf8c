//! A static analysis of crates for violations of what `Pin` promises.
//!
//! [`analyze`] runs five analyses on a crate that is given as plain values ([`model`]), and
//! returns what they report. [`driver`] decides what the compiler driver is started with and
//! what it announces, and [`cargo_pinvio`] what the cargo subcommand does.

use crate::analysis::laws::common::{lemma_items_met, met_first};
use crate::analysis::origin::OriginMap;
use crate::analysis::provenance::ProvenanceMap;
use crate::analysis::util::{all_items, items_of};
use crate::analysis::{
    deref_pin_stability, missing_unpin_bound, pin_leak_detector, safe_pin_unchecked,
    wrong_unpin_impl,
};
use crate::diagnostic::{diagnostic_views, Diagnostic, DiagnosticView};
use crate::flow::Visit;
use crate::model::Crate;
use crate::names::{
    ascending, lemma_ascending_distinct, lemma_listing, lemma_listing_unique, listing, NameSet,
};
use crate::text::{decimal, decimal_text, has_prefix, join, joined, lemma_prefix, starts_with};
use vstd::prelude::*;
use vstd::string::*;

pub mod analysis;
pub mod cargo_pinvio;
pub mod diagnostic;
pub mod driver;
pub mod flow;
pub mod model;
pub mod names;
pub mod search;
pub mod text;

verus! {

/// An analysis that was run: the line that announces it, what came out, and the line that
/// closes it.
#[derive(Debug)]
pub struct AnalysisRun<R> {
    pub started: String,
    pub result: R,
    pub finished: String,
}

/// What an analysis announces and reports.
pub ghost struct RunView {
    pub started: Seq<char>,
    pub reports: Seq<DiagnosticView>,
    pub finished: Seq<char>,
}

/// What is announced and reported for an analysis of the given name.
pub open spec fn run_of(name: Seq<char>, reports: Seq<DiagnosticView>) -> RunView {
    RunView {
        started: "++++++++++++++++++++ Running: "@ + name,
        reports,
        finished: "-------------------- Complete: "@ + name,
    }
}

pub open spec fn run_view(run: AnalysisRun<Vec<Diagnostic>>) -> RunView {
    RunView {
        started: run.started@,
        reports: diagnostic_views(run.result@),
        finished: run.finished@,
    }
}

pub open spec fn run_views(runs: Seq<AnalysisRun<Vec<Diagnostic>>>) -> Seq<RunView> {
    runs.map_values(|run: AnalysisRun<Vec<Diagnostic>>| run_view(run))
}

/// Runs an analysis under a name.
pub fn run_analysis<F, R>(name: &str, f: F) -> (r: AnalysisRun<R>) where F: FnOnce() -> R
    requires
        call_requires(f, ()),
    ensures
        call_ensures(f, (), r.result),
        r.started@ == "++++++++++++++++++++ Running: "@ + name@,
        r.finished@ == "-------------------- Complete: "@ + name@,
{
    let mut started = "++++++++++++++++++++ Running: ".to_owned();
    started.append(name);
    let result = f();
    let mut finished = "-------------------- Complete: ".to_owned();
    finished.append(name);
    AnalysisRun { started, result, finished }
}

/// The name of a file on disk, not of a macro's expansion or the like.
pub open spec fn is_on_disk(file: Seq<char>) -> bool {
    !has_prefix(file, "<"@)
}

/// The files on disk that the given items stand in.
pub open spec fn files_among(krate: Crate, order: Seq<usize>) -> Set<Seq<char>>
    decreases order.len(),
{
    if order.len() == 0 {
        Set::empty()
    } else {
        let files = files_among(krate, order.drop_last());
        let file = krate.items@[order.last() as int].file@;
        if is_on_disk(file) {
            files.insert(file)
        } else {
            files
        }
    }
}

/// The files on disk that the items of a crate stand in.
pub open spec fn source_files(krate: Crate) -> Set<Seq<char>> {
    files_among(krate, items_of(krate))
}

/// The line that says which files are covered.
pub open spec fn scope_text(krate: Crate) -> Seq<char> {
    "Scope: "@ + decimal_text(source_files(krate).len()) + " source file(s) in crate — "@ + joined(
        listing(source_files(krate)),
        ", "@,
    )
}

/// What the analyses announce and report, in the order in which they are run.
pub open spec fn runs_of(
    krate: Crate,
    origins: Seq<Vec<Visit<OriginMap>>>,
    provenances: Seq<Vec<Visit<ProvenanceMap>>>,
) -> Seq<RunView> {
    seq![
        run_of("MissingUnpinBound"@, missing_unpin_bound::crate_reports(krate)),
        run_of("WrongUnpinImpl"@, wrong_unpin_impl::crate_reports(krate)),
        run_of("PinLeakDetector"@, pin_leak_detector::crate_reports(krate, origins)),
        run_of("DerefPinStability"@, deref_pin_stability::crate_reports(krate)),
        run_of("SafePinUnchecked"@, safe_pin_unchecked::crate_reports(krate, provenances)),
    ]
}

/// What came out of all analyses of a crate.
#[derive(Debug)]
pub struct Analysis {
    pub scope: String,
    pub runs: Vec<AnalysisRun<Vec<Diagnostic>>>,
}

/// Runs all analyses on a crate. What flows through its bodies is given per body, for the two
/// analyses that follow it.
pub fn analyze(
    krate: &Crate,
    origins: &Vec<Vec<Visit<OriginMap>>>,
    provenances: &Vec<Vec<Visit<ProvenanceMap>>>,
) -> (r: Analysis)
    requires
        pin_leak_detector::flows_fit(*krate, origins@),
        safe_pin_unchecked::flows_fit(*krate, provenances@),
    ensures
        r.scope@ == scope_text(*krate),
        run_views(r.runs@) == runs_of(*krate, origins@, provenances@),
{
    let scope = scope_line(krate);
    let missing = || -> (r: Vec<Diagnostic>)
        ensures
            diagnostic_views(r@) == missing_unpin_bound::crate_reports(*krate),
        { missing_unpin_bound::check_crate(krate) };
    let wrong = || -> (r: Vec<Diagnostic>)
        ensures
            diagnostic_views(r@) == wrong_unpin_impl::crate_reports(*krate),
        { wrong_unpin_impl::check_crate(krate) };
    let leak = || -> (r: Vec<Diagnostic>)
        requires
            pin_leak_detector::flows_fit(*krate, origins@),
        ensures
            diagnostic_views(r@) == pin_leak_detector::crate_reports(*krate, origins@),
        { pin_leak_detector::check_crate(krate, origins) };
    let deref = || -> (r: Vec<Diagnostic>)
        ensures
            diagnostic_views(r@) == deref_pin_stability::crate_reports(*krate),
        { deref_pin_stability::check_crate(krate) };
    let safe = || -> (r: Vec<Diagnostic>)
        requires
            safe_pin_unchecked::flows_fit(*krate, provenances@),
        ensures
            diagnostic_views(r@) == safe_pin_unchecked::crate_reports(*krate, provenances@),
        { safe_pin_unchecked::check_crate(krate, provenances) };
    let mut runs: Vec<AnalysisRun<Vec<Diagnostic>>> = Vec::new();
    runs.push(run_analysis("MissingUnpinBound", missing));
    runs.push(run_analysis("WrongUnpinImpl", wrong));
    runs.push(run_analysis("PinLeakDetector", leak));
    runs.push(run_analysis("DerefPinStability", deref));
    runs.push(run_analysis("SafePinUnchecked", safe));
    assert(run_views(runs@) =~= runs_of(*krate, origins@, provenances@));
    Analysis { scope, runs }
}

/// The line that says which files are covered.
fn scope_line(krate: &Crate) -> (r: String)
    ensures
        r@ == scope_text(*krate),
{
    let order = all_items(krate);
    let mut files = NameSet::new();
    let mut k: usize = 0;
    while k < order.len()
        invariant
            k <= order.len(),
            forall|i: int| 0 <= i < order@.len() ==> order@[i] < krate.items@.len(),
            files@ == files_among(*krate, order@.take(k as int)),
        decreases order.len() - k,
    {
        assert(order@.take(k + 1).drop_last() =~= order@.take(k as int));
        let file = &krate.items[order[k]].file;
        if !starts_with(file.as_str(), "<") {
            files.insert(file.clone());
        }
        k += 1;
    }
    assert(order@.take(order@.len() as int) =~= order@);
    let mut line = "Scope: ".to_owned();
    line.append(decimal(files.len()).as_str());
    line.append(" source file(s) in crate — ");
    line.append(join(files.sorted(), ", ").as_str());
    line
}

/// A file is a source file of the crate if and only if it is on disk and one of the items
/// stands in it.
pub proof fn lemma_source_files(krate: Crate, order: Seq<usize>, file: Seq<char>)
    ensures
        files_among(krate, order).finite(),
        files_among(krate, order).contains(file) <==> is_on_disk(file) && exists|k: int|
            0 <= k < order.len() && krate.items@[#[trigger] order[k] as int].file@ == file,
    decreases order.len(),
{
    if order.len() > 0 {
        let rest = order.drop_last();
        lemma_source_files(krate, rest, file);
        if is_on_disk(file) && krate.items@[order.last() as int].file@ == file {
            assert(order[order.len() - 1] == order.last());
        }
        if exists|k: int|
            0 <= k < rest.len() && krate.items@[#[trigger] rest[k] as int].file@ == file {
            let k = choose|k: int|
                0 <= k < rest.len() && krate.items@[#[trigger] rest[k] as int].file@ == file;
            assert(order[k] == rest[k]);
        }
        if exists|k: int|
            0 <= k < order.len() && krate.items@[#[trigger] order[k] as int].file@ == file {
            let k = choose|k: int|
                0 <= k < order.len() && krate.items@[#[trigger] order[k] as int].file@ == file;
            if k < order.len() - 1 {
                assert(rest[k] == order[k]);
            }
        }
    }
}

/// The scope names each source file of the crate, and each once.
pub proof fn lemma_scope_names_each_file_once(krate: Crate)
    ensures
        listing(source_files(krate)).to_set() == source_files(krate),
        listing(source_files(krate)).no_duplicates(),
{
    lemma_source_files(krate, items_of(krate), Seq::empty());
    lemma_listing(source_files(krate));
}

/// The source files of a crate are those in which an item stands, where an item counts once
/// though it is met again. What begins with `<` is no file.
pub proof fn lemma_files_of_items(krate: Crate, file: Seq<char>)
    ensures
        source_files(krate).contains(file) <==> !(file.len() > 0 && file[0] == '<') && exists|i: int|
            met_first(krate, i) && (#[trigger] krate.items@[i]).file@ == file,
{
    let order = items_of(krate);
    lemma_source_files(krate, order, file);
    lemma_items_met(krate);
    assert(is_on_disk(file) <==> !(file.len() > 0 && file[0] == '<')) by {
        reveal_strlit("<");
        lemma_prefix(file, "<"@);
        if file.len() > 0 && file[0] == '<' {
            assert(file =~= "<"@ + file.skip(1));
        }
        if has_prefix(file, "<"@) {
            let end = choose|end: Seq<char>| file == #[trigger] ("<"@ + end);
            assert(file[0] == "<"@[0]);
        }
    }
    if exists|k: int|
        0 <= k < order.len() && krate.items@[#[trigger] order[k] as int].file@ == file {
        let k = choose|k: int|
            0 <= k < order.len() && krate.items@[#[trigger] order[k] as int].file@ == file;
        assert(order.contains(order[k]));
        assert(met_first(krate, order[k] as int));
    }
    if exists|i: int| met_first(krate, i) && (#[trigger] krate.items@[i]).file@ == file {
        let i = choose|i: int| met_first(krate, i) && (#[trigger] krate.items@[i]).file@ == file;
        assert(krate.items@.len() == krate.items.len());
        assert(order.contains(i as usize));
        let k = order.index_of(i as usize);
        assert(krate.items@[order[k] as int].file@ == file);
    }
}

/// All five analyses are run, whatever the others report, and each is announced and closed under
/// its own name.
pub proof fn lemma_every_analysis_is_run(
    krate: Crate,
    origins: Seq<Vec<Visit<OriginMap>>>,
    provenances: Seq<Vec<Visit<ProvenanceMap>>>,
)
    ensures
        ({
            let runs = runs_of(krate, origins, provenances);
            &&& runs.len() == 5
            &&& runs[0].reports == missing_unpin_bound::crate_reports(krate)
            &&& runs[1].reports == wrong_unpin_impl::crate_reports(krate)
            &&& runs[2].reports == pin_leak_detector::crate_reports(krate, origins)
            &&& runs[3].reports == deref_pin_stability::crate_reports(krate)
            &&& runs[4].reports == safe_pin_unchecked::crate_reports(krate, provenances)
            &&& runs[0].started == "++++++++++++++++++++ Running: "@ + "MissingUnpinBound"@
            &&& runs[1].started == "++++++++++++++++++++ Running: "@ + "WrongUnpinImpl"@
            &&& runs[2].started == "++++++++++++++++++++ Running: "@ + "PinLeakDetector"@
            &&& runs[3].started == "++++++++++++++++++++ Running: "@ + "DerefPinStability"@
            &&& runs[4].started == "++++++++++++++++++++ Running: "@ + "SafePinUnchecked"@
            &&& runs[0].finished == "-------------------- Complete: "@ + "MissingUnpinBound"@
            &&& runs[1].finished == "-------------------- Complete: "@ + "WrongUnpinImpl"@
            &&& runs[2].finished == "-------------------- Complete: "@ + "PinLeakDetector"@
            &&& runs[3].finished == "-------------------- Complete: "@ + "DerefPinStability"@
            &&& runs[4].finished == "-------------------- Complete: "@ + "SafePinUnchecked"@
        }),
{
}

/// The scope is given as the number of the source files and their names, in ascending order and
/// with commas between them.
pub proof fn lemma_scope_line(krate: Crate, files: Seq<Seq<char>>)
    requires
        ascending(files),
        files.to_set() == source_files(krate),
    ensures
        scope_text(krate) == "Scope: "@ + decimal_text(files.len())
            + " source file(s) in crate — "@ + joined(files, ", "@),
{
    lemma_source_files(krate, items_of(krate), Seq::empty());
    lemma_listing(source_files(krate));
    lemma_listing_unique(files, listing(source_files(krate)));
    lemma_ascending_distinct(files);
    files.unique_seq_to_set();
}

/// What comes out of the analyses is what each of them reports of the crate, in their order.
pub proof fn lemma_analysis_holds_all_reports(
    krate: Crate,
    origins: Vec<Vec<Visit<OriginMap>>>,
    provenances: Vec<Vec<Visit<ProvenanceMap>>>,
    r: Analysis,
)
    requires
        call_ensures(analyze, (&krate, &origins, &provenances), r),
    ensures
        r.runs@.len() == 5,
        diagnostic_views(r.runs@[0].result@) == missing_unpin_bound::crate_reports(krate),
        diagnostic_views(r.runs@[1].result@) == wrong_unpin_impl::crate_reports(krate),
        diagnostic_views(r.runs@[2].result@) == pin_leak_detector::crate_reports(krate, origins@),
        diagnostic_views(r.runs@[3].result@) == deref_pin_stability::crate_reports(krate),
        diagnostic_views(r.runs@[4].result@) == safe_pin_unchecked::crate_reports(
            krate,
            provenances@,
        ),
        r.scope@ == scope_text(krate),
{
    let runs = run_views(r.runs@);
    assert(runs.len() == 5);
    assert(runs[0] == run_view(r.runs@[0]));
    assert(runs[1] == run_view(r.runs@[1]));
    assert(runs[2] == run_view(r.runs@[2]));
    assert(runs[3] == run_view(r.runs@[3]));
    assert(runs[4] == run_view(r.runs@[4]));
}

} // verus!
