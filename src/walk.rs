use vstd::prelude::*;
use vstd::string::StringExecFns;
use crate::materialize::{RemoteKind, REMOTE_MODE};
use crate::paths::{after_last_slash, bare_name, bare_name_of, is_unnamed, join, joined};

verus! {

/// A child of a local directory, as listed before a push.
#[derive(Debug, Clone)]
pub struct LocalEntry {
    pub name: String,
    pub is_dir: bool,
}

/// An entry of a remote directory listing, as handed over before a pull.
#[derive(Debug, Clone)]
pub struct RemoteEntry {
    /// The entry's path as the listing gives it; its last component is the name.
    pub path: String,
    pub is_dir: bool,
}

/// One unit of work of a directory transfer.
#[derive(Debug)]
pub enum SyncStep {
    /// Mirror the directory `local` onto `remote` (push) or `remote` onto `local`
    /// (pull), then hand its listing to the walk.
    Visit { local: String, remote: String },
    /// Copy the local file to the remote path, created with permission bits `mode`;
    /// its size is read just before the transfer is opened.
    Send { local: String, remote: String, mode: i32 },
    /// Copy the remote file to the local path, created or truncated.
    Fetch { remote: String, local: String },
}

/// A step over plain values.
pub enum StepView {
    Visit(Seq<char>, Seq<char>),
    Send(Seq<char>, Seq<char>, i32),
    Fetch(Seq<char>, Seq<char>),
}

impl View for SyncStep {
    type V = StepView;

    open spec fn view(&self) -> StepView {
        match self {
            SyncStep::Visit { local, remote } => StepView::Visit(local@, remote@),
            SyncStep::Send { local, remote, mode } => StepView::Send(local@, remote@, *mode),
            SyncStep::Fetch { remote, local } => StepView::Fetch(remote@, local@),
        }
    }
}

/// What a push does with a remote directory path, given what `stat` reported of it.
#[derive(PartialEq, Eq, Structural, Clone, Copy, Debug)]
pub enum DirDecision {
    /// It is a directory: go on.
    Proceed,
    /// It does not exist: materialize it, then go on.
    Create,
    /// It exists and is not a directory: fail.
    Conflict,
}

/// The decision on a remote directory path that `stat` reported as `kind`.
pub fn remote_dir_decision(kind: RemoteKind) -> (r: DirDecision)
    ensures
        kind == RemoteKind::Directory <==> r == DirDecision::Proceed,
        kind == RemoteKind::Missing <==> r == DirDecision::Create,
        kind == RemoteKind::File <==> r == DirDecision::Conflict,
{
    match kind {
        RemoteKind::Directory => DirDecision::Proceed,
        RemoteKind::Missing => DirDecision::Create,
        RemoteKind::File => DirDecision::Conflict,
    }
}

/// The step that pushes local child `e` of `l` into remote directory `r`.
pub open spec fn push_step_of(l: Seq<char>, r: Seq<char>, e: LocalEntry) -> StepView {
    if e.is_dir {
        StepView::Visit(joined(l, e.name@), joined(r, e.name@))
    } else {
        StepView::Send(joined(l, e.name@), joined(r, e.name@), REMOTE_MODE)
    }
}

/// The steps that pull remote entry `e` of `r` into local directory `l`: none where
/// the entry has no name.
pub open spec fn pull_steps_of(l: Seq<char>, r: Seq<char>, e: RemoteEntry) -> Seq<StepView> {
    match bare_name_of(e.path@) {
        None => Seq::empty(),
        Some(n) => if e.is_dir {
            seq![StepView::Visit(joined(l, n), joined(r, n))]
        } else {
            seq![StepView::Fetch(joined(r, n), joined(l, n))]
        },
    }
}

/// The steps of a pushed listing, in the order they are stacked: the first child
/// ends on top, so children are taken in listing order.
pub open spec fn push_stack(l: Seq<char>, r: Seq<char>, s: Seq<LocalEntry>) -> Seq<StepView>
    decreases s.len(),
{
    if s.len() == 0 {
        Seq::empty()
    } else {
        push_stack(l, r, s.subrange(1, s.len() as int)).push(push_step_of(l, r, s[0]))
    }
}

/// The steps of a pulled listing, in the order they are stacked (see `push_stack`).
pub open spec fn pull_stack(l: Seq<char>, r: Seq<char>, s: Seq<RemoteEntry>) -> Seq<StepView>
    decreases s.len(),
{
    if s.len() == 0 {
        Seq::empty()
    } else {
        pull_stack(l, r, s.subrange(1, s.len() as int)) + pull_steps_of(l, r, s[0])
    }
}

/// The abstract state of a walk: the steps still to take (the next one last), and
/// whether it was stopped by a failure.
pub struct WalkView {
    pub pending: Seq<StepView>,
    pub stopped: bool,
}

/// A depth-first walk over a directory tree with an explicit stack of pending
/// steps. The caller takes each step in turn, performs it, and hands back the
/// listing of each visited directory; on the first failure it stops the walk.
pub struct TreeWalk {
    pending: Vec<SyncStep>,
    stopped: bool,
}

impl View for TreeWalk {
    type V = WalkView;

    closed spec fn view(&self) -> WalkView {
        WalkView { pending: self.pending@.map_values(|s: SyncStep| s@), stopped: self.stopped }
    }
}

proof fn lemma_tail_step<A>(s: Seq<A>, i: int)
    requires
        0 < i <= s.len(),
    ensures
        s.subrange(i - 1, s.len() as int).subrange(1, s.len() - i + 1) == s.subrange(i, s.len() as int),
        s.subrange(i - 1, s.len() as int)[0] == s[i - 1],
        s.subrange(i - 1, s.len() as int).len() > 0,
{
    assert(s.subrange(i - 1, s.len() as int).subrange(1, s.len() - i + 1) =~= s.subrange(i, s.len() as int));
}

impl TreeWalk {
    /// A walk that starts by visiting the directory pair (`local`, `remote`).
    pub fn new(local: &str, remote: &str) -> (r: TreeWalk)
        ensures
            r@.pending == seq![StepView::Visit(local@, remote@)],
            !r@.stopped,
    {
        let mut pending: Vec<SyncStep> = Vec::new();
        pending.push(SyncStep::Visit { local: String::from_str(local), remote: String::from_str(remote) });
        let r = TreeWalk { pending, stopped: false };
        assert(r@.pending =~= seq![StepView::Visit(local@, remote@)]);
        r
    }

    /// Whether the walk was stopped by a failure.
    pub fn is_stopped(&self) -> (r: bool)
        ensures
            r == self@.stopped,
    {
        self.stopped
    }

    /// Takes the next step: none once the walk is complete or stopped.
    pub fn next_step(&mut self) -> (r: Option<SyncStep>)
        ensures
            old(self)@.stopped || old(self)@.pending.len() == 0 ==> r is None && final(self)@
                == old(self)@,
            !old(self)@.stopped && old(self)@.pending.len() > 0 ==> {
                &&& r matches Some(s) && s@ == old(self)@.pending.last()
                &&& final(self)@.pending == old(self)@.pending.drop_last()
                &&& !final(self)@.stopped
            },
    {
        if self.stopped {
            return None;
        }
        let r = self.pending.pop();
        proof {
            if old(self)@.pending.len() > 0 {
                assert(self@.pending =~= old(self)@.pending.drop_last());
            } else {
                assert(self@.pending =~= old(self)@.pending);
            }
        }
        r
    }

    /// Stops the walk after a failed step: nothing is taken afterwards.
    pub fn fail(&mut self)
        ensures
            final(self)@.stopped,
            final(self)@.pending.len() == 0,
    {
        self.stopped = true;
        self.pending = Vec::new();
        assert(self@.pending =~= Seq::<StepView>::empty());
    }

    /// Hands over the children of local directory `local_dir`, being pushed to
    /// `remote_dir`: subdirectories are visited and files sent, in listing order.
    pub fn expand_push(&mut self, local_dir: &str, remote_dir: &str, children: &Vec<LocalEntry>)
        ensures
            final(self)@.stopped == old(self)@.stopped,
            old(self)@.stopped ==> final(self)@ == old(self)@,
            !old(self)@.stopped ==> final(self)@.pending == old(self)@.pending + push_stack(
                local_dir@,
                remote_dir@,
                children@,
            ),
    {
        if self.stopped {
            return;
        }
        let mut i: usize = children.len();
        assert(push_stack(local_dir@, remote_dir@, children@.subrange(i as int, i as int)) =~= Seq::<
            StepView,
        >::empty());
        assert(self@.pending =~= old(self)@.pending + Seq::<StepView>::empty());
        while i > 0
            invariant
                i <= children@.len(),
                !self.stopped,
                self@.pending == old(self)@.pending + push_stack(
                    local_dir@,
                    remote_dir@,
                    children@.subrange(i as int, children@.len() as int),
                ),
            decreases i,
        {
            let e = &children[i - 1];
            let local = join(local_dir, e.name.as_str());
            let remote = join(remote_dir, e.name.as_str());
            let step = if e.is_dir {
                SyncStep::Visit { local, remote }
            } else {
                SyncStep::Send { local, remote, mode: REMOTE_MODE }
            };
            proof {
                lemma_tail_step(children@, i as int);
            }
            let ghost before = self@.pending;
            self.pending.push(step);
            assert(self@.pending =~= before.push(push_step_of(local_dir@, remote_dir@, children@[i - 1])));
            i = i - 1;
        }
        assert(children@.subrange(0, children@.len() as int) =~= children@);
    }

    /// Hands over the listing of remote directory `remote_dir`, being pulled into
    /// `local_dir`: subdirectories are visited and files fetched, in listing order;
    /// entries without a name are skipped.
    pub fn expand_pull(&mut self, local_dir: &str, remote_dir: &str, entries: &Vec<RemoteEntry>)
        ensures
            final(self)@.stopped == old(self)@.stopped,
            old(self)@.stopped ==> final(self)@ == old(self)@,
            !old(self)@.stopped ==> final(self)@.pending == old(self)@.pending + pull_stack(
                local_dir@,
                remote_dir@,
                entries@,
            ),
    {
        if self.stopped {
            return;
        }
        let mut i: usize = entries.len();
        assert(pull_stack(local_dir@, remote_dir@, entries@.subrange(i as int, i as int)) =~= Seq::<
            StepView,
        >::empty());
        assert(self@.pending =~= old(self)@.pending + Seq::<StepView>::empty());
        while i > 0
            invariant
                i <= entries@.len(),
                !self.stopped,
                self@.pending == old(self)@.pending + pull_stack(
                    local_dir@,
                    remote_dir@,
                    entries@.subrange(i as int, entries@.len() as int),
                ),
            decreases i,
        {
            let e = &entries[i - 1];
            proof {
                lemma_tail_step(entries@, i as int);
            }
            let ghost before = self@.pending;
            match bare_name(e.path.as_str()) {
                None => {
                    assert(self@.pending =~= before + pull_steps_of(local_dir@, remote_dir@, entries@[i - 1]));
                },
                Some(name) => {
                    let local = join(local_dir, name.as_str());
                    let remote = join(remote_dir, name.as_str());
                    if e.is_dir {
                        self.pending.push(SyncStep::Visit { local, remote });
                    } else {
                        self.pending.push(SyncStep::Fetch { remote, local });
                    }
                    assert(self@.pending =~= before + pull_steps_of(local_dir@, remote_dir@, entries@[i - 1]));
                },
            }
            i = i - 1;
        }
        assert(entries@.subrange(0, entries@.len() as int) =~= entries@);
    }
}

proof fn lemma_after_last_slash_in_name(p: Seq<char>, base: int, m: int)
    requires
        0 <= base <= m <= p.len(),
        forall|i: int| base <= i < p.len() ==> p[i] != '/',
    ensures
        after_last_slash(p, m) == after_last_slash(p, base),
    decreases m - base,
{
    if m > base {
        lemma_after_last_slash_in_name(p, base, m - 1);
    }
}

/// The name recovered from a listed path is the name the entry was created under:
/// an entry named `name` (without `/`, and not empty, `.` or `..`) inside any
/// directory `dir`.
pub proof fn lemma_bare_name_of_joined(dir: Seq<char>, name: Seq<char>)
    requires
        !is_unnamed(name),
        forall|i: int| 0 <= i < name.len() ==> name[i] != '/',
    ensures
        bare_name_of(joined(dir, name)) == Some(name),
{
    let p = joined(dir, name);
    let base = p.len() - name.len();
    assert(p.subrange(base, p.len() as int) =~= name);
    assert forall|i: int| base <= i < p.len() implies p[i] != '/' by {
        assert(p[i] == name[i - base]);
    }
    lemma_after_last_slash_in_name(p, base, p.len() as int);
    assert(p[p.len() - 1] == name[name.len() - 1]);
    if base > 0 {
        assert(p[base - 1] == '/');
    }
}

/// A pushed entry comes back under its own name: the remote path that a push of
/// local child `e` of `l` writes to, once listed in remote directory `r` with the
/// same kind, is pulled from that same path into `e`'s name under any local root
/// `l2`, as a directory to visit or a file to fetch as the push had it.
pub proof fn lemma_round_trip_entry(l: Seq<char>, r: Seq<char>, l2: Seq<char>, e: LocalEntry, listed: RemoteEntry)
    requires
        !is_unnamed(e.name@),
        forall|i: int| 0 <= i < e.name@.len() ==> e.name@[i] != '/',
        listed.path@ == joined(r, e.name@),
        listed.is_dir == e.is_dir,
    ensures
        e.is_dir ==> push_step_of(l, r, e) == StepView::Visit(joined(l, e.name@), listed.path@)
            && pull_steps_of(l2, r, listed) == seq![StepView::Visit(joined(l2, e.name@), listed.path@)],
        !e.is_dir ==> push_step_of(l, r, e) == StepView::Send(joined(l, e.name@), listed.path@, REMOTE_MODE)
            && pull_steps_of(l2, r, listed) == seq![StepView::Fetch(listed.path@, joined(l2, e.name@))],
{
    lemma_bare_name_of_joined(r, e.name@);
}

/// A directory holding one subdirectory `sub` and one file `file` is pushed as a
/// visit of the subdirectory, taken first, and a send of the file with the fixed
/// mode; where the subdirectory is empty, its listing adds nothing more, so the
/// visit alone (which ensures the remote directory) is what the push does with it.
pub proof fn lemma_push_subdirectory_and_file(l: Seq<char>, r: Seq<char>, sub: LocalEntry, file: LocalEntry)
    requires
        sub.is_dir,
        !file.is_dir,
    ensures
        push_stack(l, r, seq![sub, file]) == seq![
            StepView::Send(joined(l, file.name@), joined(r, file.name@), REMOTE_MODE),
            StepView::Visit(joined(l, sub.name@), joined(r, sub.name@)),
        ],
        push_stack(joined(l, sub.name@), joined(r, sub.name@), Seq::<LocalEntry>::empty())
            == Seq::<StepView>::empty(),
{
    let s = seq![sub, file];
    let one = seq![file];
    assert(s.subrange(1, 2) =~= one);
    assert(one.subrange(1, 1) =~= Seq::<LocalEntry>::empty());
    assert(push_stack(l, r, Seq::<LocalEntry>::empty()) == Seq::<StepView>::empty());
    assert(push_stack(l, r, one) =~= seq![
        StepView::Send(joined(l, file.name@), joined(r, file.name@), REMOTE_MODE),
    ]);
    assert(push_stack(l, r, seq![sub, file]) =~= seq![
        StepView::Send(joined(l, file.name@), joined(r, file.name@), REMOTE_MODE),
        StepView::Visit(joined(l, sub.name@), joined(r, sub.name@)),
    ]);
}

} // verus!
