//! Which of the packages that cargo knows is the one to check.

use vstd::prelude::*;

verus! {

/// A part of a path.
#[derive(Debug)]
pub enum Component {
    Prefix(Vec<u8>),
    RootDir,
    CurDir,
    ParentDir,
    Normal(Vec<u8>),
}

/// What a part of a path is.
#[verifier::ext_equal]
pub enum ComponentView {
    Prefix(Seq<u8>),
    RootDir,
    CurDir,
    ParentDir,
    Normal(Seq<u8>),
}

impl View for Component {
    type V = ComponentView;

    open spec fn view(&self) -> ComponentView {
        match *self {
            Component::Prefix(name) => ComponentView::Prefix(name@),
            Component::RootDir => ComponentView::RootDir,
            Component::CurDir => ComponentView::CurDir,
            Component::ParentDir => ComponentView::ParentDir,
            Component::Normal(name) => ComponentView::Normal(name@),
        }
    }
}

/// A path by its parts.
#[derive(Debug)]
pub struct PathParts {
    pub parts: Vec<Component>,
}

impl View for PathParts {
    type V = Seq<ComponentView>;

    open spec fn view(&self) -> Seq<ComponentView> {
        self.parts@.map_values(|c: Component| c@)
    }
}

/// A path without its last part; none where that is a root or a prefix, or where the path is
/// empty.
pub open spec fn parent_of(path: Seq<ComponentView>) -> Option<Seq<ComponentView>> {
    if path.len() == 0 {
        None
    } else {
        match path.last() {
            ComponentView::Prefix(_) => None,
            ComponentView::RootDir => None,
            _ => Some(path.drop_last()),
        }
    }
}

/// How the package is asked for: by its manifest, or by the folder that holds the manifest.
#[derive(Debug)]
pub enum PackageQuery {
    Manifest(PathParts),
    CurrentDir(PathParts),
}

/// How a manifest stands to what is asked for.
#[derive(Clone, Copy, PartialEq, Eq, Structural, Debug)]
pub enum Probe {
    Match,
    NoMatch,
    /// The manifest's folder is asked about, and there is none.
    NoParent,
}

/// How a manifest stands to what is asked for.
pub open spec fn probe_of(manifest: Seq<ComponentView>, query: PackageQuery) -> Probe {
    match query {
        PackageQuery::Manifest(path) => if manifest == path@ {
            Probe::Match
        } else {
            Probe::NoMatch
        },
        PackageQuery::CurrentDir(dir) => match parent_of(manifest) {
            Some(parent) => if parent == dir@ {
                Probe::Match
            } else {
                Probe::NoMatch
            },
            None => Probe::NoParent,
        },
    }
}

/// Why no package was found.
#[derive(Clone, Copy, PartialEq, Eq, Structural, Debug)]
pub enum PackageError {
    /// No package is the one that was asked for, as in the root of a workspace.
    Workspace,
    /// The manifest at this position stands in no folder.
    NoParentFolder(usize),
}

fn same_bytes(a: &Vec<u8>, b: &Vec<u8>) -> (r: bool)
    ensures
        r == (a@ == b@),
{
    if a.len() != b.len() {
        return false;
    }
    let mut i: usize = 0;
    while i < a.len()
        invariant
            i <= a.len(),
            a@.len() == b@.len(),
            forall|j: int| 0 <= j < i ==> a@[j] == b@[j],
        decreases a.len() - i,
    {
        if a[i] != b[i] {
            return false;
        }
        i += 1;
    }
    assert(a@ =~= b@);
    true
}

fn same_component(a: &Component, b: &Component) -> (r: bool)
    ensures
        r == (a@ == b@),
{
    match (a, b) {
        (Component::Prefix(x), Component::Prefix(y)) => same_bytes(x, y),
        (Component::Normal(x), Component::Normal(y)) => same_bytes(x, y),
        (Component::RootDir, Component::RootDir) => true,
        (Component::CurDir, Component::CurDir) => true,
        (Component::ParentDir, Component::ParentDir) => true,
        _ => false,
    }
}

/// Whether the first `n` parts of a path are all parts of another one.
fn same_parts(a: &PathParts, n: usize, b: &PathParts) -> (r: bool)
    requires
        n <= a.parts@.len(),
    ensures
        r == (a@.take(n as int) == b@),
{
    assert(a@.take(n as int).len() == n);
    if n != b.parts.len() {
        return false;
    }
    let mut i: usize = 0;
    while i < n
        invariant
            i <= n,
            n <= a.parts@.len(),
            n == b.parts@.len(),
            forall|j: int| 0 <= j < i ==> a@[j] == b@[j],
        decreases n - i,
    {
        if !same_component(&a.parts[i], &b.parts[i]) {
            assert(a@.take(n as int)[i as int] != b@[i as int]);
            return false;
        }
        i += 1;
    }
    assert(a@.take(n as int) =~= b@);
    true
}

/// How a manifest stands to what is asked for.
pub fn probe(manifest: &PathParts, query: &PackageQuery) -> (r: Probe)
    ensures
        r == probe_of(manifest@, *query),
{
    let n: usize = manifest.parts.len();
    let same = match query {
        PackageQuery::Manifest(path) => {
            assert(manifest@.take(n as int) =~= manifest@);
            same_parts(manifest, n, path)
        },
        PackageQuery::CurrentDir(dir) => {
            if n == 0 {
                return Probe::NoParent;
            }
            match &manifest.parts[n - 1] {
                Component::Prefix(_) => {
                    return Probe::NoParent;
                },
                Component::RootDir => {
                    return Probe::NoParent;
                },
                _ => {},
            }
            assert(manifest@.take(n - 1) =~= manifest@.drop_last());
            same_parts(manifest, n - 1, dir)
        },
    };
    if same {
        Probe::Match
    } else {
        Probe::NoMatch
    }
}

/// The position of the first package that is the one asked for. The search ends early at a
/// manifest that stands in no folder, where folders are asked about.
pub fn cargo_package(manifests: &Vec<PathParts>, query: &PackageQuery) -> (r: Result<
    usize,
    PackageError,
>)
    ensures
        match r {
            Ok(i) => {
                &&& i < manifests@.len()
                &&& probe_of(manifests@[i as int]@, *query) == Probe::Match
                &&& forall|j: int|
                    0 <= j < i ==> probe_of((#[trigger] manifests@[j])@, *query) == Probe::NoMatch
            },
            Err(PackageError::NoParentFolder(i)) => {
                &&& i < manifests@.len()
                &&& probe_of(manifests@[i as int]@, *query) == Probe::NoParent
                &&& forall|j: int|
                    0 <= j < i ==> probe_of((#[trigger] manifests@[j])@, *query) == Probe::NoMatch
            },
            Err(PackageError::Workspace) => forall|j: int|
                0 <= j < manifests@.len() ==> probe_of((#[trigger] manifests@[j])@, *query)
                    == Probe::NoMatch,
        },
{
    let mut i: usize = 0;
    while i < manifests.len()
        invariant
            i <= manifests.len(),
            forall|j: int|
                0 <= j < i ==> probe_of((#[trigger] manifests@[j])@, *query) == Probe::NoMatch,
        decreases manifests.len() - i,
    {
        match probe(&manifests[i], query) {
            Probe::Match => {
                return Ok(i);
            },
            Probe::NoParent => {
                return Err(PackageError::NoParentFolder(i));
            },
            Probe::NoMatch => {},
        }
        i += 1;
    }
    Err(PackageError::Workspace)
}

/// Where a manifest is asked for, the one with that path is found and no other. Where a folder
/// is asked for, a manifest right in it is found, one in another folder is not, and a path that
/// is empty or ends in a root or a prefix stands in no folder.
pub proof fn lemma_probe(
    manifest: Seq<ComponentView>,
    asked: PathParts,
    folder: Seq<ComponentView>,
    last: ComponentView,
)
    ensures
        probe_of(manifest, PackageQuery::Manifest(asked)) == Probe::Match <==> manifest == asked@,
        probe_of(manifest, PackageQuery::Manifest(asked)) != Probe::NoParent,
        !(last is Prefix) && !(last is RootDir) ==> {
            &&& folder == asked@ ==> probe_of(folder.push(last), PackageQuery::CurrentDir(asked))
                == Probe::Match
            &&& folder != asked@ ==> probe_of(folder.push(last), PackageQuery::CurrentDir(asked))
                == Probe::NoMatch
        },
        last is Prefix || last is RootDir ==> probe_of(
            folder.push(last),
            PackageQuery::CurrentDir(asked),
        ) == Probe::NoParent,
        probe_of(Seq::empty(), PackageQuery::CurrentDir(asked)) == Probe::NoParent,
{
    assert(folder.push(last).last() == last);
    assert(folder.push(last).drop_last() =~= folder);
}

/// A package that is found is the first one with the manifest that was asked for. None is found
/// where no package has it.
pub proof fn lemma_package_by_manifest(
    manifests: Vec<PathParts>,
    asked: PathParts,
    r: Result<usize, PackageError>,
)
    requires
        call_ensures(cargo_package, (&manifests, &PackageQuery::Manifest(asked)), r),
    ensures
        match r {
            Ok(i) => {
                &&& i < manifests@.len()
                &&& manifests@[i as int]@ == asked@
                &&& forall|j: int| 0 <= j < i ==> (#[trigger] manifests@[j])@ != asked@
            },
            Err(e) => {
                &&& e == PackageError::Workspace
                &&& forall|j: int| 0 <= j < manifests@.len() ==> (#[trigger] manifests@[j])@ != asked@
            },
        },
{
}

/// The path stands in a folder: it has a last part, and that is neither a root nor a prefix.
pub open spec fn stands_in_folder(path: Seq<ComponentView>) -> bool {
    path.len() > 0 && !(path[path.len() - 1] is Prefix) && !(path[path.len() - 1] is RootDir)
}

/// A package that is found by its folder is the first one whose manifest stands right in it. The
/// search ends before, with that position, at a manifest that stands in no folder; otherwise none
/// is found where no manifest stands in the folder.
pub proof fn lemma_package_by_folder(
    manifests: Vec<PathParts>,
    folder: PathParts,
    r: Result<usize, PackageError>,
)
    requires
        call_ensures(cargo_package, (&manifests, &PackageQuery::CurrentDir(folder)), r),
    ensures
        match r {
            Ok(i) => {
                &&& i < manifests@.len()
                &&& stands_in_folder(manifests@[i as int]@)
                &&& manifests@[i as int]@.drop_last() == folder@
            },
            Err(PackageError::NoParentFolder(i)) => {
                &&& i < manifests@.len()
                &&& !stands_in_folder(manifests@[i as int]@)
            },
            Err(PackageError::Workspace) => true,
        },
        forall|j: int|
            0 <= j < (match r {
                Ok(i) => i as int,
                Err(PackageError::NoParentFolder(i)) => i as int,
                Err(PackageError::Workspace) => manifests@.len() as int,
            }) ==> stands_in_folder((#[trigger] manifests@[j])@) && manifests@[j]@.drop_last()
                != folder@,
{
}

} // verus!
