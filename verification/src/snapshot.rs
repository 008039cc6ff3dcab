//! Session command snapshots that the shell reports in batches: a
//! snapshot replaces the commands known so far only once its last batch
//! has arrived.
use vstd::prelude::*;
use crate::model::ShellCommand;
use crate::text::str_eq;

verus! {

/// The batches of the snapshot being received (with its id) and the
/// commands of the last complete one.
#[derive(Debug, Default)]
pub struct CommandSnapshot {
    id: Option<String>,
    pending: Vec<ShellCommand>,
    previous: Vec<ShellCommand>,
}

/// The value of a [`CommandSnapshot`].
pub struct SnapshotView {
    pub id: Option<Seq<char>>,
    pub pending: Seq<ShellCommand>,
    pub previous: Seq<ShellCommand>,
}

impl View for CommandSnapshot {
    type V = SnapshotView;

    closed spec fn view(&self) -> SnapshotView {
        SnapshotView {
            id: match self.id {
                Some(i) => Some(i@),
                None => None,
            },
            pending: self.pending@,
            previous: self.previous@,
        }
    }
}

/// Receiving one batch: commands without a snapshot id stand alone and
/// replace the known commands; a batch of snapshot `id` joins the batches
/// received for it (a new id drops those of another). The last batch
/// completes the snapshot, which then replaces the known commands; before
/// that, the known commands stay and the batches so far follow them.
/// Gives the next state, the commands to use and whether they are complete.
pub open spec fn received(s: SnapshotView, id: Option<Seq<char>>, complete: bool, commands: Seq<ShellCommand>)
    -> (SnapshotView, Seq<ShellCommand>, bool)
{
    match id {
        None => (SnapshotView { previous: commands, ..s }, commands, true),
        Some(i) => {
            let base = if s.id == Some(i) { s.pending } else { Seq::empty() };
            let pending = base + commands;
            if complete {
                (SnapshotView { id: None, pending: Seq::empty(), previous: pending }, pending, true)
            } else {
                (SnapshotView { id: Some(i), pending, previous: s.previous }, s.previous + pending, false)
            }
        },
    }
}

fn copy_commands(v: &Vec<ShellCommand>) -> (r: Vec<ShellCommand>)
    ensures
        r@ == v@,
{
    let mut r: Vec<ShellCommand> = Vec::new();
    let mut i: usize = 0;
    while i < v.len()
        invariant
            i <= v@.len(),
            r@ == v@.take(i as int),
        decreases v@.len() - i,
    {
        r.push(v[i].copy());
        assert(v@.take(i as int + 1) =~= v@.take(i as int).push(v@[i as int]));
        i = i + 1;
    }
    assert(v@.take(i as int) =~= v@);
    r
}

fn append_commands(v: &mut Vec<ShellCommand>, more: &Vec<ShellCommand>)
    ensures
        final(v)@ == old(v)@ + more@,
{
    let ghost start = v@;
    let mut i: usize = 0;
    while i < more.len()
        invariant
            i <= more@.len(),
            v@ == start + more@.take(i as int),
        decreases more@.len() - i,
    {
        v.push(more[i].copy());
        assert(more@.take(i as int + 1) =~= more@.take(i as int).push(more@[i as int]));
        i = i + 1;
    }
    assert(more@.take(i as int) =~= more@);
}

impl CommandSnapshot {
    /// No snapshot received yet and no commands known.
    pub fn new() -> (r: CommandSnapshot)
        ensures
            r@.id is None,
            r@.pending.len() == 0,
            r@.previous.len() == 0,
    {
        let r = CommandSnapshot { id: None, pending: Vec::new(), previous: Vec::new() };
        assert(r@.pending =~= Seq::<ShellCommand>::empty());
        r
    }

    /// Receive a batch of commands (see [`received`]): `id` is the snapshot
    /// it belongs to, if any, and `complete` whether it is the last one.
    pub fn receive(&mut self, id: Option<String>, complete: bool, commands: Vec<ShellCommand>) -> (r: (Vec<ShellCommand>, bool))
        ensures
            received(old(self)@, match id { Some(i) => Some(i@), None => None }, complete, commands@)
                == (final(self)@, r.0@, r.1),
    {
        match id {
            None => {
                self.previous = copy_commands(&commands);
                (commands, true)
            },
            Some(i) => {
                let same = match &self.id {
                    Some(current) => str_eq(current.as_str(), i.as_str()),
                    None => false,
                };
                if !same {
                    self.id = Some(i);
                    self.pending = Vec::new();
                }
                append_commands(&mut self.pending, &commands);
                if complete {
                    let mut done: Vec<ShellCommand> = Vec::new();
                    std::mem::swap(&mut done, &mut self.pending);
                    self.previous = done;
                    self.id = None;
                    assert(self@.pending =~= Seq::<ShellCommand>::empty());
                    (copy_commands(&self.previous), true)
                } else {
                    let mut merged = copy_commands(&self.previous);
                    append_commands(&mut merged, &self.pending);
                    (merged, false)
                }
            },
        }
    }
}

/// The batches of snapshot `id` received one after another, none of them
/// the last.
pub open spec fn received_partial(s: SnapshotView, id: Seq<char>, batches: Seq<Seq<ShellCommand>>) -> SnapshotView
    decreases batches.len(),
{
    if batches.len() == 0 {
        s
    } else {
        received(received_partial(s, id, batches.drop_last()), Some(id), false, batches.last()).0
    }
}

/// All commands of a list of batches, in order.
pub open spec fn flatten(batches: Seq<Seq<ShellCommand>>) -> Seq<ShellCommand>
    decreases batches.len(),
{
    if batches.len() == 0 { Seq::empty() } else { flatten(batches.drop_last()) + batches.last() }
}

proof fn lemma_received_partial(s: SnapshotView, id: Seq<char>, batches: Seq<Seq<ShellCommand>>)
    requires
        s.id != Some(id),
        batches.len() > 0,
    ensures
        received_partial(s, id, batches).id == Some(id),
        received_partial(s, id, batches).pending == flatten(batches),
        received_partial(s, id, batches).previous == s.previous,
    decreases batches.len(),
{
    let prev = received_partial(s, id, batches.drop_last());
    if batches.len() > 1 {
        lemma_received_partial(s, id, batches.drop_last());
        assert(prev.id == Some(id));
    } else {
        assert(batches.drop_last().len() == 0);
        assert(prev == s);
        assert(flatten(batches.drop_last()) =~= Seq::<ShellCommand>::empty());
        assert(Seq::<ShellCommand>::empty() + batches.last() =~= batches.last());
        assert(flatten(batches) =~= batches.last());
    }
}

/// While a snapshot is incomplete, the commands of the last complete one
/// stay in use, followed by the batches received so far: a partial batch
/// never removes a known command.
pub proof fn law_partial_batches_keep_known_commands(s: SnapshotView, id: Seq<char>, commands: Seq<ShellCommand>)
    ensures
        received(s, Some(id), false, commands).1.take(s.previous.len() as int) == s.previous,
        !received(s, Some(id), false, commands).2,
        received(s, Some(id), false, commands).0.previous == s.previous,
{
    let r = received(s, Some(id), false, commands).1;
    assert(r.take(s.previous.len() as int) =~= s.previous);
}

/// A snapshot sent in batches, once its last batch arrives, gives exactly
/// the commands of all its batches, in order, and replaces the known ones.
pub proof fn law_complete_snapshot_is_all_batches(s: SnapshotView, id: Seq<char>, batches: Seq<Seq<ShellCommand>>,
    last: Seq<ShellCommand>)
    requires
        s.id != Some(id),
    ensures
        ({
            let done = received(received_partial(s, id, batches), Some(id), true, last);
            &&& done.1 == flatten(batches) + last
            &&& done.2
            &&& done.0.previous == flatten(batches) + last
            &&& done.0.pending.len() == 0
        }),
{
    if batches.len() > 0 {
        lemma_received_partial(s, id, batches);
    } else {
        assert(flatten(batches) =~= Seq::<ShellCommand>::empty());
        assert(Seq::<ShellCommand>::empty() + last =~= last);
    }
}

} // verus!
