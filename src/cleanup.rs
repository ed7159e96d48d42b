use vstd::prelude::*;
use crate::ids::ImageId;
use crate::metadata::Directory;
use crate::vpath::VPath;

verus! {

/// Seconds after startup during which cleanup plans but does not delete.
pub const DRY_RUN_SECS: u64 = 600;

/// Seconds between two commands of the cleanup loop.
pub const INTERVAL_SECS: u64 = 10;

/// Whether cleanup, `elapsed_secs` after startup, only plans deletions.
pub fn in_dry_run(elapsed_secs: u64) -> (r: bool)
    ensures
        r == (elapsed_secs < DRY_RUN_SECS),
{
    elapsed_secs < DRY_RUN_SECS
}

/// A command of the cleanup loop.
#[derive(Debug, Clone)]
pub enum Command {
    /// Clean the base directory at this path.
    Base(VPath),
    /// Remove indexes that no state refers to.
    IndexGc,
    /// Plan the next round.
    Reschedule,
}

pub enum CommandView {
    Base(Seq<Seq<u8>>),
    IndexGc,
    Reschedule,
}

pub open spec fn command_view(c: Command) -> CommandView {
    match c {
        Command::Base(p) => CommandView::Base(p@),
        Command::IndexGc => CommandView::IndexGc,
        Command::Reschedule => CommandView::Reschedule,
    }
}

pub open spec fn commands_view(s: Seq<Command>) -> Seq<CommandView> {
    s.map_values(|c: Command| command_view(c))
}

/// A `Base` command for each base directory that is cleaned automatically.
pub open spec fn base_commands(dirs: Seq<(VPath, Directory)>) -> Seq<CommandView>
    decreases dirs.len(),
{
    if dirs.len() == 0 {
        Seq::empty()
    } else if dirs.last().1.auto_clean {
        base_commands(dirs.drop_last()).push(CommandView::Base(dirs.last().0@))
    } else {
        base_commands(dirs.drop_last())
    }
}

/// What one `Reschedule` does: the commands it queues, in order, and
/// whether it resets the count of deletions since the last index GC.
pub struct Rescheduled {
    pub commands: Vec<Command>,
    pub reset_gc_counter: bool,
}

/// Plans a round of cleanup: an index GC where it is forced or due, a
/// `Base` for each automatically cleaned base directory, then the next
/// `Reschedule`.
pub fn reschedule(aggressive_index_gc: bool, gc_due: bool, base_dirs: &Vec<(VPath, Directory)>) -> (r:
    Rescheduled)
    ensures
        r.reset_gc_counter == (aggressive_index_gc || gc_due),
        commands_view(r.commands@) == (if aggressive_index_gc || gc_due {
            seq![CommandView::IndexGc]
        } else {
            Seq::<CommandView>::empty()
        }) + base_commands(base_dirs@) + seq![CommandView::Reschedule],
{
    let mut commands: Vec<Command> = Vec::new();
    let gc = aggressive_index_gc || gc_due;
    if gc {
        commands.push(Command::IndexGc);
    }
    let ghost head = commands_view(commands@);
    assert(head =~= if gc {
        seq![CommandView::IndexGc]
    } else {
        Seq::<CommandView>::empty()
    });
    let mut k: usize = 0;
    assert(base_dirs@.subrange(0, 0) =~= Seq::<(VPath, Directory)>::empty());
    assert(head + Seq::<CommandView>::empty() =~= head);
    while k < base_dirs.len()
        invariant
            0 <= k <= base_dirs@.len(),
            commands_view(commands@) == head + base_commands(base_dirs@.subrange(0, k as int)),
        decreases base_dirs@.len() - k,
    {
        let ghost pre = base_dirs@.subrange(0, k + 1);
        assert(pre.drop_last() =~= base_dirs@.subrange(0, k as int));
        assert(pre.last() == base_dirs@[k as int]);
        if base_dirs[k].1.auto_clean {
            let c = Command::Base(base_dirs[k].0.copy());
            let ghost before = commands@;
            commands.push(c);
            assert(commands@ == before.push(c));
            assert(commands_view(commands@) =~= commands_view(before).push(command_view(c)));
        }
        assert(commands_view(commands@) =~= head + base_commands(pre));
        k = k + 1;
    }
    assert(base_dirs@.subrange(0, base_dirs@.len() as int) =~= base_dirs@);
    let ghost before = commands@;
    commands.push(Command::Reschedule);
    assert(commands@ == before.push(Command::Reschedule));
    assert(commands_view(commands@) =~= commands_view(before).push(CommandView::Reschedule));
    Rescheduled { commands, reset_gc_counter: gc }
}

/// An image to remove: its virtual path and the image it holds.
#[derive(Debug, Clone)]
pub struct Removal {
    pub path: VPath,
    pub image: ImageId,
}

/// The removals, as (virtual path, image), for the unused images of base
/// directory `base`, skipping names that are no valid segment.
pub open spec fn planned_removals(base: Seq<Seq<u8>>, unused: Seq<(Vec<u8>, ImageId)>) -> Seq<
    (Seq<Seq<u8>>, Seq<u8>),
>
    decreases unused.len(),
{
    if unused.len() == 0 {
        Seq::empty()
    } else if crate::vpath::valid_segment(unused.last().0@) {
        planned_removals(base, unused.drop_last()).push((base.push(unused.last().0@), unused.last().1@))
    } else {
        planned_removals(base, unused.drop_last())
    }
}

pub open spec fn removals_view(s: Seq<Removal>) -> Seq<(Seq<Seq<u8>>, Seq<u8>)> {
    s.map_values(|r: Removal| (r.path@, r.image@))
}

/// The removals for the unused images of base directory `base`, each named
/// by its directory name; none during the dry-run window.
pub fn removals(dry_run: bool, base: &VPath, unused: &Vec<(Vec<u8>, ImageId)>) -> (r: Vec<Removal>)
    requires
        base.wf(),
    ensures
        removals_view(r@) == if dry_run {
            Seq::empty()
        } else {
            planned_removals(base@, unused@)
        },
{
    let mut out: Vec<Removal> = Vec::new();
    if dry_run {
        assert(removals_view(out@) =~= Seq::<(Seq<Seq<u8>>, Seq<u8>)>::empty());
        return out;
    }
    let mut k: usize = 0;
    assert(unused@.subrange(0, 0) =~= Seq::<(Vec<u8>, ImageId)>::empty());
    assert(removals_view(out@) =~= Seq::<(Seq<Seq<u8>>, Seq<u8>)>::empty());
    while k < unused.len()
        invariant
            base.wf(),
            0 <= k <= unused@.len(),
            removals_view(out@) == planned_removals(base@, unused@.subrange(0, k as int)),
        decreases unused@.len() - k,
    {
        let ghost pre = unused@.subrange(0, k + 1);
        assert(pre.drop_last() =~= unused@.subrange(0, k as int));
        assert(pre.last() == unused@[k as int]);
        if let Some(path) = base.join(unused[k].0.as_slice()) {
            let rm = Removal { path, image: unused[k].1.copy() };
            let ghost before = out@;
            out.push(rm);
            assert(out@ == before.push(rm));
            assert(removals_view(out@) =~= removals_view(before).push((rm.path@, rm.image@)));
        }
        k = k + 1;
    }
    assert(unused@.subrange(0, unused@.len() as int) =~= unused@);
    out
}

/// Boxes an error for the cleanup loop's error path.
pub fn boxerr<E>(e: E) -> (r: Box<E>)
    ensures
        *r == e,
{
    Box::new(e)
}

} // verus!
