use vstd::prelude::*;
use vstd::string::StringExecFns;
use crate::paths::{dir_prefixes, dir_prefixes_of};

verus! {

/// Permission bits given to every directory and file created remotely (`rwxr-xr-x`).
pub const REMOTE_MODE: i32 = 0o755;

/// What a remote `stat` reported of a path.
#[derive(PartialEq, Eq, Structural, Clone, Copy, Debug)]
pub enum RemoteKind {
    Missing,
    Directory,
    File,
}

/// Where the materializer stands on its current component.
#[derive(PartialEq, Eq, Structural, Clone, Copy, Debug)]
pub enum MkdirStage {
    /// The component is to be looked up.
    Probe,
    /// The component was found missing and is to be created.
    Creating,
    /// The component exists and is not a directory: the run has failed.
    Conflict,
}

/// The abstract state of a materializer: the directories to ensure, shortest first,
/// the index of the current one, and the stage on it.
pub struct MatState {
    pub prefixes: Seq<Seq<char>>,
    pub pos: int,
    pub stage: MkdirStage,
}

/// What the caller is to do next on the remote side.
#[derive(Debug)]
pub enum MkdirAction {
    /// Look the path up and report its kind with `on_stat`.
    Stat(String),
    /// Create the directory with these permission bits and report with `on_created`.
    Create(String, i32),
    /// Every component exists as a directory.
    Done,
    /// The path exists and is not a directory.
    Conflict(String),
}

pub open spec fn mat_wf(m: MatState) -> bool {
    &&& 0 <= m.pos <= m.prefixes.len()
    &&& m.stage != MkdirStage::Probe ==> m.pos < m.prefixes.len()
}

pub open spec fn mat_start(prefixes: Seq<Seq<char>>) -> MatState {
    MatState { prefixes, pos: 0, stage: MkdirStage::Probe }
}

/// Whether the run is over, successfully or not.
pub open spec fn mat_finished(m: MatState) -> bool {
    m.stage == MkdirStage::Conflict || (m.stage == MkdirStage::Probe && m.pos >= m.prefixes.len())
}

/// The transition on the kind that `stat` reported for the current component.
pub open spec fn stat_step(m: MatState, kind: RemoteKind) -> MatState {
    match kind {
        RemoteKind::Directory => MatState { pos: m.pos + 1, ..m },
        RemoteKind::File => MatState { stage: MkdirStage::Conflict, ..m },
        RemoteKind::Missing => MatState { stage: MkdirStage::Creating, ..m },
    }
}

/// The transition once the current component has been created.
pub open spec fn create_step(m: MatState) -> MatState {
    MatState { pos: m.pos + 1, stage: MkdirStage::Probe, ..m }
}

/// The action that state `m` asks for.
pub open spec fn action_of(a: MkdirAction, m: MatState) -> bool {
    match m.stage {
        MkdirStage::Conflict => a matches MkdirAction::Conflict(p) && p@ == m.prefixes[m.pos],
        MkdirStage::Creating => a matches MkdirAction::Create(p, mode) && p@ == m.prefixes[m.pos]
            && mode == REMOTE_MODE,
        MkdirStage::Probe => if m.pos >= m.prefixes.len() {
            a is Done
        } else {
            a matches MkdirAction::Stat(p) && p@ == m.prefixes[m.pos]
        },
    }
}

/// Ensures that every component of a remote directory path exists as a directory,
/// one remote operation at a time: the caller performs each action it hands out and
/// reports the outcome.
pub struct Materializer {
    prefixes: Vec<String>,
    pos: usize,
    stage: MkdirStage,
}

impl View for Materializer {
    type V = MatState;

    closed spec fn view(&self) -> MatState {
        MatState {
            prefixes: self.prefixes@.map_values(|s: String| s@),
            pos: self.pos as int,
            stage: self.stage,
        }
    }
}

impl Materializer {
    pub closed spec fn wf(&self) -> bool {
        mat_wf(self@)
    }

    /// A materializer for the directory `path`, about to look up its first component.
    pub fn new(path: &str) -> (r: Materializer)
        ensures
            r.wf(),
            r@ == mat_start(dir_prefixes_of(path@)),
    {
        let prefixes = dir_prefixes(path);
        let r = Materializer { prefixes, pos: 0, stage: MkdirStage::Probe };
        assert(r@.prefixes =~= dir_prefixes_of(path@));
        r
    }

    /// The next thing to do.
    pub fn next_action(&self) -> (r: MkdirAction)
        requires
            self.wf(),
        ensures
            action_of(r, self@),
    {
        match self.stage {
            MkdirStage::Conflict => MkdirAction::Conflict(String::from_str(self.prefixes[self.pos].as_str())),
            MkdirStage::Creating => MkdirAction::Create(
                String::from_str(self.prefixes[self.pos].as_str()),
                REMOTE_MODE,
            ),
            MkdirStage::Probe => {
                if self.pos >= self.prefixes.len() {
                    MkdirAction::Done
                } else {
                    MkdirAction::Stat(String::from_str(self.prefixes[self.pos].as_str()))
                }
            },
        }
    }

    /// Takes the result of the `stat` that `next_action` asked for.
    pub fn on_stat(&mut self, kind: RemoteKind)
        requires
            old(self).wf(),
            old(self)@.stage == MkdirStage::Probe,
            old(self)@.pos < old(self)@.prefixes.len(),
        ensures
            final(self).wf(),
            final(self)@ == stat_step(old(self)@, kind),
    {
        match kind {
            RemoteKind::Directory => {
                let n = self.prefixes.len();
                assert(self.pos < n);
                self.pos = self.pos + 1;
            },
            RemoteKind::File => {
                self.stage = MkdirStage::Conflict;
            },
            RemoteKind::Missing => {
                self.stage = MkdirStage::Creating;
            },
        }
    }

    /// Records that the directory that `next_action` asked for was created.
    pub fn on_created(&mut self)
        requires
            old(self).wf(),
            old(self)@.stage == MkdirStage::Creating,
        ensures
            final(self).wf(),
            final(self)@ == create_step(old(self)@),
    {
        let n = self.prefixes.len();
        assert(self.pos < n);
        self.pos = self.pos + 1;
        self.stage = MkdirStage::Probe;
    }
}

/// What a remote filesystem, modelled as a map from path to "is a directory",
/// reports for `p`.
pub open spec fn kind_in(fs: Map<Seq<char>, bool>, p: Seq<char>) -> RemoteKind {
    if !fs.contains_key(p) {
        RemoteKind::Missing
    } else if fs[p] {
        RemoteKind::Directory
    } else {
        RemoteKind::File
    }
}

pub open spec fn mat_measure(m: MatState) -> int {
    2 * (m.prefixes.len() - m.pos) + if m.stage == MkdirStage::Probe { 1int } else { 0int }
}

/// A whole run of a materializer in state `m` against the filesystem `fs`, each
/// action answered by `fs` and each creation recorded in it: the final state and
/// the filesystem afterwards.
pub open spec fn drive(m: MatState, fs: Map<Seq<char>, bool>) -> (MatState, Map<Seq<char>, bool>)
    decreases mat_measure(m),
{
    if !mat_wf(m) || mat_finished(m) {
        (m, fs)
    } else if m.stage == MkdirStage::Creating {
        drive(create_step(m), fs.insert(m.prefixes[m.pos], true))
    } else {
        drive(stat_step(m, kind_in(fs, m.prefixes[m.pos])), fs)
    }
}

proof fn lemma_drive_ends(m: MatState, fs: Map<Seq<char>, bool>)
    requires
        mat_wf(m),
    ensures
        mat_finished(drive(m, fs).0),
        drive(m, fs).0.prefixes == m.prefixes,
        forall|q: Seq<char>| kind_in(fs, q) == RemoteKind::Directory
            ==> #[trigger] kind_in(drive(m, fs).1, q) == RemoteKind::Directory,
        drive(m, fs).0.stage != MkdirStage::Conflict ==> forall|j: int|
            m.pos <= j < m.prefixes.len() ==> #[trigger] kind_in(drive(m, fs).1, m.prefixes[j])
                == RemoteKind::Directory,
    decreases mat_measure(m),
{
    if mat_finished(m) {
    } else if m.stage == MkdirStage::Creating {
        let fs2 = fs.insert(m.prefixes[m.pos], true);
        lemma_drive_ends(create_step(m), fs2);
        assert(kind_in(fs2, m.prefixes[m.pos]) == RemoteKind::Directory);
        assert forall|q: Seq<char>| kind_in(fs, q) == RemoteKind::Directory implies kind_in(fs2, q)
            == RemoteKind::Directory by {
            if q != m.prefixes[m.pos] {
                assert(fs2[q] == fs[q]);
            }
        }
    } else {
        lemma_drive_ends(stat_step(m, kind_in(fs, m.prefixes[m.pos])), fs);
    }
}

proof fn lemma_drive_all_dirs(m: MatState, fs: Map<Seq<char>, bool>)
    requires
        mat_wf(m),
        m.stage == MkdirStage::Probe,
        forall|j: int| m.pos <= j < m.prefixes.len() ==> #[trigger] kind_in(fs, m.prefixes[j])
            == RemoteKind::Directory,
    ensures
        drive(m, fs).1 == fs,
        drive(m, fs).0 == (MatState { pos: m.prefixes.len() as int, ..m }),
    decreases mat_measure(m),
{
    if m.pos < m.prefixes.len() {
        lemma_drive_all_dirs(stat_step(m, kind_in(fs, m.prefixes[m.pos])), fs);
    }
}

/// Ensuring the same directory twice: where the first run against a filesystem
/// succeeds, every component of the path is then a directory, and a second run
/// against the resulting filesystem succeeds too and creates nothing.
pub proof fn lemma_materialize_idempotent(path: Seq<char>, fs: Map<Seq<char>, bool>)
    requires
        drive(mat_start(dir_prefixes_of(path)), fs).0.stage != MkdirStage::Conflict,
    ensures
        ({
            let first = drive(mat_start(dir_prefixes_of(path)), fs);
            let second = drive(mat_start(dir_prefixes_of(path)), first.1);
            &&& forall|j: int| 0 <= j < dir_prefixes_of(path).len()
                ==> #[trigger] kind_in(first.1, dir_prefixes_of(path)[j]) == RemoteKind::Directory
            &&& second.1 == first.1
            &&& mat_finished(second.0)
            &&& second.0.stage != MkdirStage::Conflict
        }),
{
    let start = mat_start(dir_prefixes_of(path));
    lemma_drive_ends(start, fs);
    let fs1 = drive(start, fs).1;
    lemma_drive_all_dirs(start, fs1);
}

/// `fs1` holds for `q` what `fs` holds.
pub open spec fn untouched(fs: Map<Seq<char>, bool>, fs1: Map<Seq<char>, bool>, q: Seq<char>) -> bool {
    &&& fs1.contains_key(q) == fs.contains_key(q)
    &&& fs.contains_key(q) ==> fs1[q] == fs[q]
}

/// `q` is none of `prefixes[lo..hi]`.
pub open spec fn avoids(q: Seq<char>, prefixes: Seq<Seq<char>>, lo: int, hi: int) -> bool {
    forall|j: int| lo <= j < hi ==> q != #[trigger] prefixes[j]
}

proof fn lemma_drive_conflict(m: MatState, fs: Map<Seq<char>, bool>, k: int)
    requires
        mat_wf(m),
        m.stage != MkdirStage::Conflict,
        m.pos <= k < m.prefixes.len(),
        kind_in(fs, m.prefixes[k]) == RemoteKind::File,
        forall|j: int| m.pos <= j < k ==> #[trigger] kind_in(fs, m.prefixes[j]) != RemoteKind::File,
        m.stage == MkdirStage::Creating ==> !fs.contains_key(m.prefixes[m.pos]),
    ensures
        drive(m, fs).0.stage == MkdirStage::Conflict,
        drive(m, fs).0.pos == k,
        forall|q: Seq<char>| avoids(q, m.prefixes, m.pos, k) ==> #[trigger] untouched(fs, drive(m, fs).1, q),
    decreases mat_measure(m),
{
    if m.stage == MkdirStage::Creating {
        let fs2 = fs.insert(m.prefixes[m.pos], true);
        let next = create_step(m);
        assert(m.pos < k);
        assert(fs2[m.prefixes[k]] == fs[m.prefixes[k]]);
        assert forall|j: int| m.pos + 1 <= j < k implies #[trigger] kind_in(fs2, m.prefixes[j])
            != RemoteKind::File by {
            if m.prefixes[j] != m.prefixes[m.pos] {
                assert(kind_in(fs, m.prefixes[j]) != RemoteKind::File);
            }
        }
        lemma_drive_conflict(next, fs2, k);
        assert(drive(m, fs) == drive(next, fs2));
        assert forall|q: Seq<char>| avoids(q, m.prefixes, m.pos, k) implies #[trigger] untouched(
            fs,
            drive(m, fs).1,
            q,
        ) by {
            assert(q != m.prefixes[m.pos]);
            assert(avoids(q, next.prefixes, next.pos, k));
            assert(untouched(fs2, drive(next, fs2).1, q));
        }
    } else if m.pos == k {
        let c = stat_step(m, RemoteKind::File);
        assert(drive(m, fs) == drive(c, fs));
        assert(drive(c, fs) == (c, fs));
    } else {
        let kind = kind_in(fs, m.prefixes[m.pos]);
        let next = stat_step(m, kind);
        assert(kind != RemoteKind::File);
        lemma_drive_conflict(next, fs, k);
        assert(drive(m, fs) == drive(next, fs));
        assert forall|q: Seq<char>| avoids(q, m.prefixes, m.pos, k) implies #[trigger] untouched(
            fs,
            drive(m, fs).1,
            q,
        ) by {
            assert(avoids(q, next.prefixes, next.pos, k));
            assert(untouched(fs, drive(next, fs).1, q));
        }
    }
}

/// A component that exists as a file stops the run: where the `k`-th directory of
/// the path is a file and none before it is, the run ends in a conflict on that
/// component, and the filesystem is left as it was but for the components before it.
pub proof fn lemma_materialize_conflict(path: Seq<char>, fs: Map<Seq<char>, bool>, k: int)
    requires
        0 <= k < dir_prefixes_of(path).len(),
        kind_in(fs, dir_prefixes_of(path)[k]) == RemoteKind::File,
        forall|j: int| 0 <= j < k ==> #[trigger] kind_in(fs, dir_prefixes_of(path)[j])
            != RemoteKind::File,
    ensures
        ({
            let run = drive(mat_start(dir_prefixes_of(path)), fs);
            &&& run.0.stage == MkdirStage::Conflict
            &&& run.0.pos == k
            &&& forall|q: Seq<char>| avoids(q, dir_prefixes_of(path), 0, k)
                ==> #[trigger] untouched(fs, run.1, q)
        }),
{
    lemma_drive_conflict(mat_start(dir_prefixes_of(path)), fs, k);
}

} // verus!
