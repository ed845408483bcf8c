//! The targets of a package, and the order in which they are checked.

use crate::text::same_text;
use vstd::prelude::*;
use vstd::string::*;

verus! {

/// The kind that cargo gives a target.
#[derive(Debug)]
pub enum CargoKind {
    Bench,
    Bin,
    CustomBuild,
    CDyLib,
    DyLib,
    Example,
    Lib,
    ProcMacro,
    RLib,
    StaticLib,
    Test,
    Unknown(String),
}

impl CargoKind {
    /// The kind as cargo writes it.
    pub open spec fn text(self) -> Seq<char> {
        match self {
            CargoKind::Bench => "bench"@,
            CargoKind::Bin => "bin"@,
            CargoKind::CustomBuild => "custom-build"@,
            CargoKind::CDyLib => "cdylib"@,
            CargoKind::DyLib => "dylib"@,
            CargoKind::Example => "example"@,
            CargoKind::Lib => "lib"@,
            CargoKind::ProcMacro => "proc-macro"@,
            CargoKind::RLib => "rlib"@,
            CargoKind::StaticLib => "staticlib"@,
            CargoKind::Test => "test"@,
            CargoKind::Unknown(text) => text@,
        }
    }
}

/// The printed form of a kind, from `Display` for `cargo_metadata::TargetKind`: each named kind
/// is printed by its name in cargo's metadata, and an unknown one by the text that it holds.
#[verifier::external_body]
fn kind_to_string(kind: &CargoKind) -> (r: String)
    ensures
        r@ == kind.text(),
{
    let kind = match kind {
        CargoKind::Bench => cargo_metadata::TargetKind::Bench,
        CargoKind::Bin => cargo_metadata::TargetKind::Bin,
        CargoKind::CustomBuild => cargo_metadata::TargetKind::CustomBuild,
        CargoKind::CDyLib => cargo_metadata::TargetKind::CDyLib,
        CargoKind::DyLib => cargo_metadata::TargetKind::DyLib,
        CargoKind::Example => cargo_metadata::TargetKind::Example,
        CargoKind::Lib => cargo_metadata::TargetKind::Lib,
        CargoKind::ProcMacro => cargo_metadata::TargetKind::ProcMacro,
        CargoKind::RLib => cargo_metadata::TargetKind::RLib,
        CargoKind::StaticLib => cargo_metadata::TargetKind::StaticLib,
        CargoKind::Test => cargo_metadata::TargetKind::Test,
        CargoKind::Unknown(text) => cargo_metadata::TargetKind::Unknown(text.clone()),
    };
    kind.to_string()
}

/// A target of a package.
#[derive(Debug)]
pub struct CargoTarget {
    pub name: String,
    pub kinds: Vec<CargoKind>,
}

/// What a target is to this tool.
#[derive(Clone, Copy, PartialEq, Eq, Structural, Debug)]
pub enum TargetKind {
    Library,
    Bin,
    Unknown,
}

/// A name that cargo uses for a kind of library.
pub open spec fn is_lib_name(s: Seq<char>) -> bool {
    s == "lib"@ || s == "rlib"@ || s == "staticlib"@
}

impl TargetKind {
    /// What a target with the given kinds is: a library if any kind is one, else an executable
    /// if that is its first kind.
    pub open spec fn of_kinds(kinds: Seq<CargoKind>) -> TargetKind {
        if exists|i: int| 0 <= i < kinds.len() && is_lib_name((#[trigger] kinds[i]).text()) {
            TargetKind::Library
        } else if kinds.len() > 0 && kinds[0] is Bin {
            TargetKind::Bin
        } else {
            TargetKind::Unknown
        }
    }

    /// The place of a kind in the order in which targets are checked.
    pub open spec fn rank(self) -> nat {
        match self {
            TargetKind::Library => 0,
            TargetKind::Bin => 1,
            TargetKind::Unknown => 2,
        }
    }

    /// The name of a kind.
    pub open spec fn label_text(self) -> Seq<char> {
        match self {
            TargetKind::Library => "lib"@,
            TargetKind::Bin => "bin"@,
            TargetKind::Unknown => "unknown"@,
        }
    }

    /// Whether a name is one that cargo uses for a kind of library.
    pub fn is_lib_str(s: &str) -> (r: bool)
        ensures
            r == is_lib_name(s@),
    {
        same_text(s, "lib") || same_text(s, "rlib") || same_text(s, "staticlib")
    }

    /// What a target is.
    pub fn from(target: &CargoTarget) -> (r: TargetKind)
        ensures
            r == TargetKind::of_kinds(target.kinds@),
    {
        let kinds = &target.kinds;
        let mut i: usize = 0;
        while i < kinds.len()
            invariant
                i <= kinds.len(),
                forall|j: int| 0 <= j < i ==> !is_lib_name((#[trigger] kinds@[j]).text()),
                kinds@ == target.kinds@,
            decreases kinds.len() - i,
        {
            let text = kind_to_string(&kinds[i]);
            if TargetKind::is_lib_str(text.as_str()) {
                assert(is_lib_name(target.kinds@[i as int].text()));
                return TargetKind::Library;
            }
            i += 1;
        }
        if kinds.len() > 0 {
            if let CargoKind::Bin = &kinds[0] {
                return TargetKind::Bin;
            }
        }
        TargetKind::Unknown
    }

    /// The name of a kind.
    pub fn label(self) -> (r: &'static str)
        ensures
            r@ == self.label_text(),
    {
        match self {
            TargetKind::Library => "lib",
            TargetKind::Bin => "bin",
            TargetKind::Unknown => "unknown",
        }
    }
}

/// What the target at a position is.
pub open spec fn kind_at(targets: Seq<CargoTarget>, i: int) -> TargetKind {
    TargetKind::of_kinds(targets[i].kinds@)
}

/// The positions among the first `n` of the targets of the given kind.
pub open spec fn positions_of(targets: Seq<CargoTarget>, kind: TargetKind, n: nat) -> Seq<usize>
    decreases n,
{
    if n == 0 {
        Seq::empty()
    } else {
        let rest = positions_of(targets, kind, (n - 1) as nat);
        if kind_at(targets, n - 1) == kind {
            rest.push((n - 1) as usize)
        } else {
            rest
        }
    }
}

/// The positions of the targets in the order in which they are checked: first the libraries,
/// then the executables, then all others, each in the order in which they are given.
pub open spec fn check_order(targets: Seq<CargoTarget>) -> Seq<usize> {
    positions_of(targets, TargetKind::Library, targets.len()) + positions_of(
        targets,
        TargetKind::Bin,
        targets.len(),
    ) + positions_of(targets, TargetKind::Unknown, targets.len())
}

/// The positions of the targets in the order in which they are checked.
pub fn sort_targets(targets: &Vec<CargoTarget>) -> (r: Vec<usize>)
    ensures
        r@ == check_order(targets@),
        forall|k: int| 0 <= k < r@.len() ==> r@[k] < targets@.len(),
{
    let mut order: Vec<usize> = Vec::new();
    push_positions(targets, TargetKind::Library, &mut order);
    push_positions(targets, TargetKind::Bin, &mut order);
    push_positions(targets, TargetKind::Unknown, &mut order);
    assert(order@ =~= check_order(targets@));
    order
}

fn push_positions(targets: &Vec<CargoTarget>, kind: TargetKind, order: &mut Vec<usize>)
    requires
        forall|k: int| 0 <= k < old(order)@.len() ==> old(order)@[k] < targets@.len(),
    ensures
        final(order)@ == old(order)@ + positions_of(targets@, kind, targets@.len()),
        forall|k: int| 0 <= k < final(order)@.len() ==> final(order)@[k] < targets@.len(),
{
    let ghost start = order@;
    let mut i: usize = 0;
    while i < targets.len()
        invariant
            i <= targets.len(),
            order@ =~= start + positions_of(targets@, kind, i as nat),
            forall|k: int| 0 <= k < order@.len() ==> order@[k] < targets@.len(),
        decreases targets.len() - i,
    {
        if TargetKind::from(&targets[i]) == kind {
            order.push(i);
        }
        i += 1;
    }
}

/// Libraries come before executables, and those before all others; among targets of one kind
/// the given order is kept; and every target occurs.
pub proof fn lemma_check_order(targets: Seq<CargoTarget>)
    requires
        targets.len() <= usize::MAX,
    ensures
        forall|k: int, m: int|
            #![trigger check_order(targets)[k], check_order(targets)[m]]
            0 <= k < m < check_order(targets).len() ==> {
                let a = check_order(targets)[k];
                let b = check_order(targets)[m];
                &&& kind_at(targets, a as int).rank() <= kind_at(targets, b as int).rank()
                &&& kind_at(targets, a as int) == kind_at(targets, b as int) ==> a < b
            },
        forall|i: usize| i < targets.len() ==> #[trigger] check_order(targets).contains(i),
        check_order(targets).len() == targets.len(),
{
    let n = targets.len();
    let libs = positions_of(targets, TargetKind::Library, n);
    let bins = positions_of(targets, TargetKind::Bin, n);
    let others = positions_of(targets, TargetKind::Unknown, n);
    let order = check_order(targets);
    lemma_positions(targets, TargetKind::Library, n);
    lemma_positions(targets, TargetKind::Bin, n);
    lemma_positions(targets, TargetKind::Unknown, n);
    lemma_positions_count(targets, n);
    assert forall|k: int, m: int|
        #![trigger order[k], order[m]]
        0 <= k < m < order.len() implies {
        &&& kind_at(targets, order[k] as int).rank() <= kind_at(targets, order[m] as int).rank()
        &&& kind_at(targets, order[k] as int) == kind_at(targets, order[m] as int) ==> order[k]
            < order[m]
    } by {
        lemma_order_member(targets, k);
        lemma_order_member(targets, m);
    }
    assert forall|i: usize| i < targets.len() implies #[trigger] check_order(targets).contains(
        i,
    ) by {
        match kind_at(targets, i as int) {
            TargetKind::Library => {
                let k = choose|k: int| 0 <= k < libs.len() && #[trigger] libs[k] == i;
                assert(check_order(targets)[k] == i);
            },
            TargetKind::Bin => {
                let k = choose|k: int| 0 <= k < bins.len() && #[trigger] bins[k] == i;
                assert(check_order(targets)[libs.len() + k] == i);
            },
            TargetKind::Unknown => {
                let k = choose|k: int| 0 <= k < others.len() && #[trigger] others[k] == i;
                assert(check_order(targets)[libs.len() + bins.len() + k] == i);
            },
        }
    }
}

proof fn lemma_order_member(targets: Seq<CargoTarget>, k: int)
    requires
        targets.len() <= usize::MAX,
        0 <= k < check_order(targets).len(),
    ensures
        ({
            let libs = positions_of(targets, TargetKind::Library, targets.len());
            let bins = positions_of(targets, TargetKind::Bin, targets.len());
            let others = positions_of(targets, TargetKind::Unknown, targets.len());
            let a = check_order(targets)[k];
            if k < libs.len() {
                a == libs[k] && kind_at(targets, a as int) == TargetKind::Library
            } else if k < libs.len() + bins.len() {
                a == bins[k - libs.len()] && kind_at(targets, a as int) == TargetKind::Bin
            } else {
                a == others[k - libs.len() - bins.len()] && kind_at(targets, a as int)
                    == TargetKind::Unknown
            }
        }),
{
    lemma_positions(targets, TargetKind::Library, targets.len());
    lemma_positions(targets, TargetKind::Bin, targets.len());
    lemma_positions(targets, TargetKind::Unknown, targets.len());
}

proof fn lemma_positions(targets: Seq<CargoTarget>, kind: TargetKind, n: nat)
    requires
        n <= targets.len(),
        n <= usize::MAX,
    ensures
        forall|k: int|
            #![trigger positions_of(targets, kind, n)[k]]
            0 <= k < positions_of(targets, kind, n).len() ==> positions_of(targets, kind, n)[k] < n
                && kind_at(targets, positions_of(targets, kind, n)[k] as int) == kind,
        forall|k: int, m: int|
            #![trigger positions_of(targets, kind, n)[k], positions_of(targets, kind, n)[m]]
            0 <= k < m < positions_of(targets, kind, n).len() ==> positions_of(targets, kind, n)[k]
                < positions_of(targets, kind, n)[m],
        forall|i: int|
            0 <= i < n && #[trigger] kind_at(targets, i) == kind ==> exists|k: int|
                0 <= k < positions_of(targets, kind, n).len() && #[trigger] positions_of(
                    targets,
                    kind,
                    n,
                )[k] == i,
    decreases n,
{
    if n > 0 {
        let rest = positions_of(targets, kind, (n - 1) as nat);
        let list = positions_of(targets, kind, n);
        lemma_positions(targets, kind, (n - 1) as nat);
        assert forall|i: int| 0 <= i < n && #[trigger] kind_at(targets, i) == kind implies exists|
            k: int,
        | 0 <= k < list.len() && #[trigger] list[k] == i by {
            if i == n - 1 {
                assert(list[list.len() - 1] == i);
            } else {
                let k = choose|k: int| 0 <= k < rest.len() && #[trigger] rest[k] == i;
                assert(list[k] == i);
            }
        }
    }
}

proof fn lemma_positions_count(targets: Seq<CargoTarget>, n: nat)
    ensures
        positions_of(targets, TargetKind::Library, n).len() + positions_of(
            targets,
            TargetKind::Bin,
            n,
        ).len() + positions_of(targets, TargetKind::Unknown, n).len() == n,
    decreases n,
{
    if n > 0 {
        lemma_positions_count(targets, (n - 1) as nat);
    }
}

/// Cargo's kind is one of a library: a plain one, one for Rust programs or a static one, also
/// where cargo only gives its name.
pub open spec fn is_library_kind(kind: CargoKind) -> bool {
    match kind {
        CargoKind::Lib => true,
        CargoKind::RLib => true,
        CargoKind::StaticLib => true,
        CargoKind::Unknown(text) => text@ == "lib"@ || text@ == "rlib"@ || text@ == "staticlib"@,
        _ => false,
    }
}

/// A target is a library exactly when one of its kinds is, at whatever place. Any other target
/// is an executable exactly when that is the first of its kinds.
pub proof fn lemma_kind_of_target(kinds: Seq<CargoKind>)
    ensures
        TargetKind::of_kinds(kinds) == TargetKind::Library <==> exists|i: int|
            0 <= i < kinds.len() && is_library_kind(#[trigger] kinds[i]),
        TargetKind::of_kinds(kinds) == TargetKind::Bin <==> kinds.len() > 0 && kinds[0] is Bin && (
        forall|i: int| 0 <= i < kinds.len() ==> !is_library_kind(#[trigger] kinds[i])),
{
    assert forall|i: int| 0 <= i < kinds.len() implies is_lib_name(
        (#[trigger] kinds[i]).text(),
    ) == is_library_kind(kinds[i]) by {
        lemma_library_name(kinds[i]);
    }
    if TargetKind::of_kinds(kinds) == TargetKind::Library {
        let i = choose|i: int| 0 <= i < kinds.len() && is_lib_name((#[trigger] kinds[i]).text());
        assert(is_library_kind(kinds[i]));
    }
    if exists|i: int| 0 <= i < kinds.len() && is_library_kind(#[trigger] kinds[i]) {
        let i = choose|i: int| 0 <= i < kinds.len() && is_library_kind(#[trigger] kinds[i]);
        assert(is_lib_name(kinds[i].text()));
    }
}

proof fn lemma_library_name(kind: CargoKind)
    ensures
        is_lib_name(kind.text()) == is_library_kind(kind),
{
    reveal_strlit("lib");
    reveal_strlit("rlib");
    reveal_strlit("staticlib");
    reveal_strlit("bench");
    reveal_strlit("bin");
    reveal_strlit("custom-build");
    reveal_strlit("cdylib");
    reveal_strlit("dylib");
    reveal_strlit("example");
    reveal_strlit("proc-macro");
    reveal_strlit("test");
    let text = kind.text();
    match kind {
        CargoKind::Bench => {
            assert(text.len() == 5);
        },
        CargoKind::Bin => {
            assert(text[0] == 'b');
            assert("lib"@[0] == 'l');
        },
        CargoKind::CustomBuild => {
            assert(text.len() == 12);
        },
        CargoKind::CDyLib => {
            assert(text.len() == 6);
        },
        CargoKind::DyLib => {
            assert(text.len() == 5);
        },
        CargoKind::Example => {
            assert(text.len() == 7);
        },
        CargoKind::ProcMacro => {
            assert(text.len() == 10);
        },
        CargoKind::Test => {
            assert(text[0] == 't');
            assert("rlib"@[0] == 'r');
        },
        _ => {},
    }
}

/// Of two targets that are checked one after the other, the later one is a library only where
/// the earlier one is, and the earlier one is unsupported only where the later one is. Of two
/// libraries, two executables or two others, the one that is given first comes first.
pub proof fn lemma_libraries_first(targets: Seq<CargoTarget>, k: int, m: int)
    requires
        targets.len() <= usize::MAX,
        0 <= k < m < check_order(targets).len(),
    ensures
        ({
            let first = TargetKind::of_kinds(targets[check_order(targets)[k] as int].kinds@);
            let second = TargetKind::of_kinds(targets[check_order(targets)[m] as int].kinds@);
            &&& second == TargetKind::Library ==> first == TargetKind::Library
            &&& first == TargetKind::Unknown ==> second == TargetKind::Unknown
            &&& first == second ==> check_order(targets)[k] < check_order(targets)[m]
        }),
{
    lemma_check_order(targets);
    assert(check_order(targets)[k] == check_order(targets)[k]);
    assert(check_order(targets)[m] == check_order(targets)[m]);
}

} // verus!
