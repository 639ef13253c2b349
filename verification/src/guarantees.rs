//! What holds of a guest through all of its calls.
use crate::errno::ERRNO_PERM;
use crate::files;
use crate::files::PathOpen;
use crate::import_wasi_p1;
use crate::import_wasi_p1::step::Step;
use crate::path;
use crate::path::{PathKind, PathModel};
use crate::resolve;
use crate::resolve::PathProbe;
use crate::runtime::{Interpreter, WasiFunc};
use crate::wasi_ctx;
use crate::wasi_ctx::{FdEntry, WasiProcMacroCtx, WriteTarget};
use vstd::prelude::*;

verus! {

/// Whether an entry is one that a guest starts with: a standard stream or a directory that was
/// open from the start.
pub open spec fn is_initial(entry: Option<FdEntry>) -> bool {
    match entry {
        Some(FdEntry::Stdin | FdEntry::Stdout | FdEntry::Stderr | FdEntry::PreopenDir(_)) => true,
        _ => false,
    }
}

/// Whether the entries that a guest starts with are where they were.
pub open spec fn keeps_initial(
    before: Seq<Option<FdEntry>>,
    after: Seq<Option<FdEntry>>,
) -> bool {
    forall|i: int|
        0 <= i < before.len() && is_initial(#[trigger] before[i]) ==> i < after.len() && after[i]
            == before[i]
}

/// Whether each directory lies under one of `roots`.
pub open spec fn confined_to(fds: Seq<Option<FdEntry>>, roots: Set<PathModel>) -> bool {
    forall|i: int|
        0 <= i < fds.len() ==> (dir_root(#[trigger] fds[i]) matches Some(dir) ==> lies_under(
            dir,
            roots,
        ))
}

/// Whether a path lies under one of `roots`.
pub open spec fn lies_under(path: PathModel, roots: Set<PathModel>) -> bool {
    exists|root: PathModel| #[trigger] roots.contains(root) && path.starts_with(root)
}

/// Whether only slashes mean anything in the paths of `roots`.
pub open spec fn between_slashes(roots: Set<PathModel>) -> bool {
    forall|root: PathModel| #[trigger] roots.contains(root) ==> root.kind == PathKind::Slash
}

/// Where the directory is that an entry stands for, if it stands for one.
pub open spec fn dir_root(entry: Option<FdEntry>) -> Option<PathModel> {
    match entry {
        Some(FdEntry::PreopenDir(dir)) => Some(dir.root@),
        Some(FdEntry::OpenDir { root, .. }) => Some(root@),
        _ => None,
    }
}

/// Whether nothing can be written through an entry, nor below it.
pub open spec fn is_read_only(entry: Option<FdEntry>) -> bool {
    match entry {
        Some(FdEntry::PreopenDir(dir)) => !dir.writable,
        Some(FdEntry::OpenDir { writable, .. }) => !writable,
        Some(FdEntry::OpenFile { writable, .. }) => !writable,
        _ => true,
    }
}

/// Whether nothing can be written through any entry.
pub open spec fn read_only(fds: Seq<Option<FdEntry>>) -> bool {
    forall|i: int| 0 <= i < fds.len() ==> is_read_only(#[trigger] fds[i])
}

/// An entry is put into the lowest free slot: no slot below it is free, none that is in use is
/// touched, and the entry stands where its number says.
pub proof fn law_lowest_free_slot(fds: Seq<Option<FdEntry>>, entry: FdEntry)
    ensures
        ({
            let slot = wasi_ctx::free_slot(fds, 0);
            let after = wasi_ctx::with_entry(fds, entry);
            &&& slot <= fds.len()
            &&& forall|i: int| 0 <= i < slot ==> (#[trigger] fds[i]) is Some
            &&& slot < fds.len() ==> fds[slot as int] is None
            &&& after[slot as int] == Some(entry)
            &&& after.len() >= fds.len()
            &&& forall|i: int| 0 <= i < fds.len() && i != slot ==> (#[trigger] after[i]) == fds[i]
        }),
{
    lemma_free_slot(fds, 0);
}

/// What the free slot from `from` on is.
proof fn lemma_free_slot(fds: Seq<Option<FdEntry>>, from: nat)
    ensures
        from <= fds.len() ==> from <= wasi_ctx::free_slot(fds, from) <= fds.len(),
        forall|i: int|
            from <= i < wasi_ctx::free_slot(fds, from) && i < fds.len() ==> (
            #[trigger] fds[i]) is Some,
        wasi_ctx::free_slot(fds, from) < fds.len() ==> fds[wasi_ctx::free_slot(
            fds,
            from,
        ) as int] is None,
    decreases fds.len() - from,
{
    if from < fds.len() && fds[from as int] is Some {
        lemma_free_slot(fds, from + 1);
    }
}

/// A descriptor that was freed is the next one that is given out, where no lower one is free.
pub proof fn law_freed_descriptor_is_reused(ctx: &WasiProcMacroCtx, fd: u32)
    requires
        ctx.release_of(fd) is Ok,
        forall|i: int| 0 <= i < fd ==> (#[trigger] ctx.fds@[i]) is Some,
    ensures
        wasi_ctx::free_slot(ctx.fds_without(fd), 0) == fd,
{
    lemma_free_slot(ctx.fds_without(fd), 0);
    let after = ctx.fds_without(fd);
    let slot = wasi_ctx::free_slot(after, 0);
    assert(after[fd as int] is None);
    if slot < fd {
        assert(after[slot as int] == ctx.fds@[slot as int]);
    }
}

/// A freed descriptor stands for nothing, and every other one for what it did.
pub proof fn law_close_frees_one(ctx: &WasiProcMacroCtx, fd: u32)
    requires
        ctx.release_of(fd) is Ok,
    ensures
        ctx.fds_without(fd)[fd as int] is None,
        ctx.fds_without(fd).len() == ctx.fds@.len(),
        forall|i: int|
            0 <= i < ctx.fds@.len() && i != fd ==> (#[trigger] ctx.fds_without(fd)[i])
                == ctx.fds@[i],
{
}

/// What a guest starts with cannot be closed.
pub proof fn law_initial_descriptors_stay(ctx: &WasiProcMacroCtx, fd: u32)
    requires
        is_initial(ctx.entry(fd)),
    ensures
        ctx.release_of(fd) is Err,
        ctx.fds_without(fd) == ctx.fds@,
{
}

/// Whatever a guest calls, the entries that it started with stay, its directories stay under the
/// directories that it was given, and it gets nothing to write to where it had nothing to write
/// to.
pub proof fn law_calls_keep_guarantees(
    func: WasiFunc,
    before: Interpreter,
    after: Interpreter,
    ctx: WasiProcMacroCtx,
    ctx_after: WasiProcMacroCtx,
    step: Step,
    roots: Set<PathModel>,
)
    requires
        import_wasi_p1::called(func, before, after, ctx, ctx_after, step),
    ensures
        keeps_initial(ctx.fds@, ctx_after.fds@),
        confined_to(ctx.fds@, roots) ==> confined_to(ctx_after.fds@, roots),
        read_only(ctx.fds@) ==> read_only(ctx_after.fds@),
{
    if func == WasiFunc::FdClose {
        assert forall|i: int| 0 <= i < ctx_after.fds@.len() implies ctx_after.fds@[i] is None
            || #[trigger] ctx_after.fds@[i] == ctx.fds@[i] by {}
    }
}

/// Whether an entry comes of a request to open a path: a directory where a directory was asked
/// for and the host's answer leads, or a file.
pub open spec fn comes_of(entry: FdEntry, request: &PathOpen, probe: &PathProbe) -> bool {
    match entry {
        FdEntry::OpenDir { root, writable } => {
            &&& request.want_directory
            &&& files::open_path(request, probe) == Ok::<PathModel, i32>(root@)
            &&& writable == request.writable
        },
        FdEntry::OpenFile { writable, .. } => writable == request.write_requested,
        _ => false,
    }
}

/// Opening a path keeps what calls keep, whatever the host answers: the entries that the guest
/// started with stay, a directory lies under one that the guest was given, as long as no name
/// starts with a drive, and nothing can be written where nothing could be.
pub proof fn law_opening_keeps_guarantees(
    ctx: WasiProcMacroCtx,
    ctx_after: WasiProcMacroCtx,
    request: &PathOpen,
    probe: &PathProbe,
    dirfd: u32,
    rel: Seq<u8>,
    oflags: u32,
    fdflags: u32,
    rights_base: u64,
    fd: Result<u32, i32>,
    entry: FdEntry,
    roots: Set<PathModel>,
)
    requires
        ctx.dir_of(dirfd) is Ok,
        files::asks_for(request, &ctx, dirfd, rel, oflags, fdflags, rights_base),
        fd is Ok ==> comes_of(entry, request, probe),
        files::opened(ctx, ctx_after, fd, entry),
    ensures
        keeps_initial(ctx.fds@, ctx_after.fds@),
        confined_to(ctx.fds@, roots) && (between_slashes(roots) || resolve::names_no_drive(
            request.lookup.root@,
            request.lookup.rel@,
        )) ==> confined_to(ctx_after.fds@, roots),
        read_only(ctx.fds@) ==> read_only(ctx_after.fds@),
{
    let fds = ctx.fds@;
    let now = ctx_after.fds@;
    if fd is Ok {
        law_lowest_free_slot(fds, entry);
        let slot = wasi_ctx::free_slot(fds, 0);
        let dir = ctx.dir_of(dirfd)->Ok_0;
        assert(dir_root(fds[dirfd as int]) == Some(dir.0));
        if confined_to(fds, roots) && (between_slashes(roots) || resolve::names_no_drive(
            request.lookup.root@,
            request.lookup.rel@,
        )) {
            assert(lies_under(dir.0, roots));
            let root = choose|root: PathModel| #[trigger]
                roots.contains(root) && dir.0.starts_with(root);
            if let FdEntry::OpenDir { root: full, .. } = entry {
                if between_slashes(roots) {
                    resolve::law_slash_paths_name_no_drive(dir.0, request.lookup.rel@);
                }
                resolve::law_resolved_existing_stays_under_root(
                    request.lookup.root@,
                    request.lookup.rel@,
                    false,
                    probe,
                );
                path::law_starts_with_transitive(full@, dir.0, root);
                assert(roots.contains(root) && full@.starts_with(root));
                assert(lies_under(full@, roots));
            }
            assert forall|i: int| 0 <= i < now.len() implies (dir_root(
                #[trigger] now[i],
            ) matches Some(dir) ==> lies_under(dir, roots)) by {
                if i != slot {
                    assert(now[i] == fds[i]);
                }
            }
        }
        if read_only(fds) {
            assert(is_read_only(fds[dirfd as int]));
            assert forall|i: int| 0 <= i < now.len() implies is_read_only(#[trigger] now[i]) by {
                if i != slot {
                    assert(now[i] == fds[i]);
                }
            }
        }
    }
}

/// Something that changes the context of a guest.
pub enum Move {
    /// The guest calls a function.
    Call { func: WasiFunc, before: Interpreter, after: Interpreter, step: Step },
    /// A path is opened, as far as the host lets it.
    Open {
        request: PathOpen,
        probe: PathProbe,
        dirfd: u32,
        rel: Seq<u8>,
        oflags: u32,
        fdflags: u32,
        rights_base: u64,
        fd: Result<u32, i32>,
        entry: FdEntry,
    },
    /// The host has written for the guest.
    Print { target: WriteTarget, bytes: Seq<u8> },
}

/// Whether a move leads from one context to another.
pub open spec fn leads(m: Move, ctx: WasiProcMacroCtx, ctx_after: WasiProcMacroCtx) -> bool {
    match m {
        Move::Call { func, before, after, step } => import_wasi_p1::called(
            func,
            before,
            after,
            ctx,
            ctx_after,
            step,
        ),
        Move::Open {
            request,
            probe,
            dirfd,
            rel,
            oflags,
            fdflags,
            rights_base,
            fd,
            entry,
        } => {
            &&& ctx.dir_of(dirfd) is Ok
            &&& files::asks_for(&request, &ctx, dirfd, rel, oflags, fdflags, rights_base)
            &&& fd matches Ok(fd) ==> fd == wasi_ctx::free_slot(ctx.fds@, 0) as u32 && comes_of(
                entry,
                &request,
                &probe,
            )
            &&& files::opened(ctx, ctx_after, fd, entry)
        },
        Move::Print { target, bytes } => wasi_ctx::printed(ctx, ctx_after, target, bytes),
    }
}

/// Whether a move opens no path in which a name starts with a drive.
pub open spec fn opens_no_drive(m: Move) -> bool {
    match m {
        Move::Open { request, .. } => resolve::names_no_drive(
            request.lookup.root@,
            request.lookup.rel@,
        ),
        _ => true,
    }
}

/// One move keeps what all moves keep.
proof fn lemma_move_keeps_guarantees(
    m: Move,
    ctx: WasiProcMacroCtx,
    ctx_after: WasiProcMacroCtx,
    roots: Set<PathModel>,
)
    requires
        leads(m, ctx, ctx_after),
    ensures
        keeps_initial(ctx.fds@, ctx_after.fds@),
        confined_to(ctx.fds@, roots) && (between_slashes(roots) || opens_no_drive(m))
            ==> confined_to(ctx_after.fds@, roots),
        read_only(ctx.fds@) ==> read_only(ctx_after.fds@),
{
    match m {
        Move::Call { func, before, after, step } => {
            law_calls_keep_guarantees(func, before, after, ctx, ctx_after, step, roots);
        },
        Move::Open {
            request,
            probe,
            dirfd,
            rel,
            oflags,
            fdflags,
            rights_base,
            fd,
            entry,
        } => {
            law_opening_keeps_guarantees(
                ctx,
                ctx_after,
                &request,
                &probe,
                dirfd,
                rel,
                oflags,
                fdflags,
                rights_base,
                fd,
                entry,
                roots,
            );
        },
        Move::Print { .. } => {},
    }
}

/// However long a guest runs and whatever the host answers: what it started with is where it was,
/// its directories lie under those that it was given, as long as no name starts with a drive, and
/// it has nothing to write to if it had nothing to write to at first.
pub proof fn law_runs_keep_guarantees(
    states: Seq<WasiProcMacroCtx>,
    moves: Seq<Move>,
    roots: Set<PathModel>,
)
    requires
        states.len() == moves.len() + 1,
        forall|i: int|
            0 <= i < moves.len() ==> leads(#[trigger] moves[i], states[i], states[i + 1]),
    ensures
        keeps_initial(states[0].fds@, states.last().fds@),
        confined_to(states[0].fds@, roots) && (between_slashes(roots) || forall|i: int|
            0 <= i < moves.len() ==> opens_no_drive(#[trigger] moves[i])) ==> confined_to(
            states.last().fds@,
            roots,
        ),
        read_only(states[0].fds@) ==> read_only(states.last().fds@),
    decreases moves.len(),
{
    if moves.len() > 0 {
        let last = moves.len() - 1;
        let fewer = states.drop_last();
        assert forall|i: int| 0 <= i < moves.drop_last().len() implies leads(
            #[trigger] moves.drop_last()[i],
            fewer[i],
            fewer[i + 1],
        ) by {
            assert(leads(moves[i], states[i], states[i + 1]));
        }
        law_runs_keep_guarantees(fewer, moves.drop_last(), roots);
        assert(leads(moves[last], states[last], states[last + 1]));
        lemma_move_keeps_guarantees(moves[last], states[last], states[last + 1], roots);
        assert(fewer.last() == states[last]);
        if forall|i: int| 0 <= i < moves.len() ==> opens_no_drive(#[trigger] moves[i]) {
            assert forall|i: int| 0 <= i < moves.drop_last().len() implies opens_no_drive(
                #[trigger] moves.drop_last()[i],
            ) by {
                assert(opens_no_drive(moves[i]));
            }
            assert(opens_no_drive(moves[last]));
        }
    }
}

/// The descriptors that come of a directory: its own, and those of what was opened below it, below
/// a directory that was opened below it, and so on, as long as they are open.
pub open spec fn descended(start: u32, states: Seq<WasiProcMacroCtx>, moves: Seq<Move>) -> Set<u32>
    decreases moves.len(),
{
    if moves.len() == 0 {
        set![start]
    } else {
        let before = descended(start, states.drop_last(), moves.drop_last());
        match moves.last() {
            Move::Open { dirfd, fd: Ok(fd), .. } => if before.contains(dirfd) {
                before.insert(fd)
            } else {
                before
            },
            Move::Call { .. } => before.filter(|fd: u32| states.last().entry(fd) is Some),
            _ => before,
        }
    }
}

/// Whether a descriptor stands for a directory or a file that may not be written to, so that
/// writing to it is refused, and opening something for writing below it too.
pub open spec fn refuses_writing(ctx: WasiProcMacroCtx, fd: u32) -> bool {
    &&& match ctx.entry(fd) {
        Some(FdEntry::PreopenDir(dir)) => !dir.writable,
        Some(FdEntry::OpenDir { writable, .. }) => !writable,
        Some(FdEntry::OpenFile { writable, .. }) => !writable,
        _ => false,
    }
    &&& ctx.target_of(fd) is Err
    &&& forall|rel: Seq<u8>| (#[trigger] files::path_open_error(&ctx, fd, rel, true)) is Some
}

/// Whether the output streams are where a guest finds them.
pub open spec fn has_streams(ctx: WasiProcMacroCtx) -> bool {
    ctx.entry(1) == Some(FdEntry::Stdout) && ctx.entry(2) == Some(FdEntry::Stderr)
}

/// However long a guest runs, whatever else it was given and whatever the host answers: what
/// comes of a directory that may not be written to may not be written to either, as long as the
/// numbers of descriptors suffice. What the guest started with stays among it.
pub proof fn law_read_only_directories_stay_read_only(
    start: u32,
    states: Seq<WasiProcMacroCtx>,
    moves: Seq<Move>,
)
    requires
        states.len() == moves.len() + 1,
        forall|i: int|
            0 <= i < moves.len() ==> leads(#[trigger] moves[i], states[i], states[i + 1]),
        forall|i: int| 0 <= i < states.len() ==> (#[trigger] states[i]).fds@.len() <= u32::MAX,
        has_streams(states[0]),
        states[0].dir_of(start) matches Ok((_, writable)) && !writable,
    ensures
        has_streams(states.last()),
        forall|fd: u32| #[trigger]
            descended(start, states, moves).contains(fd) ==> refuses_writing(states.last(), fd),
        is_initial(states[0].entry(start)) ==> is_initial(states.last().entry(start)) && descended(
            start,
            states,
            moves,
        ).contains(start),
    decreases moves.len(),
{
    if moves.len() > 0 {
        let last = moves.len() - 1;
        let fewer = states.drop_last();
        assert forall|i: int| 0 <= i < moves.drop_last().len() implies leads(
            #[trigger] moves.drop_last()[i],
            fewer[i],
            fewer[i + 1],
        ) by {
            assert(leads(moves[i], states[i], states[i + 1]));
        }
        assert forall|i: int| 0 <= i < fewer.len() implies (#[trigger] fewer[i]).fds@.len()
            <= u32::MAX by {
            assert(states[i].fds@.len() <= u32::MAX);
        }
        law_read_only_directories_stay_read_only(start, fewer, moves.drop_last());
        let ctx = states[last];
        let now = states[last + 1];
        assert(fewer.last() == ctx);
        assert(leads(moves[last], ctx, now));
        assert(ctx.fds@.len() <= u32::MAX);
        lemma_move_keeps_read_only(
            moves[last],
            ctx,
            now,
            descended(start, fewer, moves.drop_last()),
            start,
        );
    }
}

/// One move keeps what comes of a directory as it was.
proof fn lemma_move_keeps_read_only(
    m: Move,
    ctx: WasiProcMacroCtx,
    now: WasiProcMacroCtx,
    before: Set<u32>,
    start: u32,
)
    requires
        leads(m, ctx, now),
        ctx.fds@.len() <= u32::MAX,
        has_streams(ctx),
        forall|fd: u32| #[trigger] before.contains(fd) ==> refuses_writing(ctx, fd),
    ensures
        has_streams(now),
        match m {
            Move::Open { dirfd, fd: Ok(fd), .. } => {
                &&& forall|d: u32| #[trigger] before.contains(d) ==> refuses_writing(now, d)
                &&& before.contains(dirfd) ==> refuses_writing(now, fd)
            },
            _ => forall|d: u32| #[trigger]
                before.contains(d) && now.entry(d) is Some ==> refuses_writing(now, d),
        },
        m is Call || forall|d: u32|
            ctx.entry(d) is Some ==> #[trigger] now.entry(d) == ctx.entry(d),
        is_initial(ctx.entry(start)) ==> now.entry(start) == ctx.entry(start),
{
    lemma_move_keeps_guarantees(m, ctx, now, Set::empty());
    assert(is_initial(ctx.fds@[1]) && is_initial(ctx.fds@[2]));
    match m {
        Move::Call { func, before: b, after: a, step } => {
            assert forall|d: u32| now.entry(d) is Some implies #[trigger] now.entry(d) == ctx.entry(
                d,
            ) by {
                if func == WasiFunc::FdClose {
                    assert(now.fds@[d as int] == ctx.fds@[d as int]);
                }
            }
            assert forall|d: u32| #[trigger]
                before.contains(d) && now.entry(d) is Some implies refuses_writing(now, d) by {
                lemma_same_entry_refuses(ctx, now, d);
            }
        },
        Move::Open { request, probe, dirfd, rel, oflags, fdflags, rights_base, fd, entry } => {
            if fd is Ok {
                law_lowest_free_slot(ctx.fds@, entry);
                let slot = wasi_ctx::free_slot(ctx.fds@, 0);
                assert forall|d: u32| ctx.entry(d) is Some implies #[trigger] now.entry(d)
                    == ctx.entry(d) by {
                    assert(d != slot);
                    assert(now.fds@[d as int] == ctx.fds@[d as int]);
                }
                assert(now.entry(slot as u32) == Some(entry));
                assert(slot != 1 && slot != 2);
            }
            assert forall|d: u32| #[trigger] before.contains(d) implies refuses_writing(now, d) by {
                lemma_same_entry_refuses(ctx, now, d);
            }
        },
        Move::Print { .. } => {
            assert forall|d: u32| #[trigger] before.contains(d) implies refuses_writing(now, d) by {
                lemma_same_entry_refuses(ctx, now, d);
            }
        },
    }
}

/// Whether writing is refused depends on nothing but the entry.
proof fn lemma_same_entry_refuses(ctx: WasiProcMacroCtx, now: WasiProcMacroCtx, fd: u32)
    requires
        refuses_writing(ctx, fd),
        now.entry(fd) == ctx.entry(fd),
    ensures
        refuses_writing(now, fd),
{
    assert forall|rel: Seq<u8>|
        (#[trigger] files::path_open_error(&now, fd, rel, true)) is Some by {
        assert(files::path_open_error(&ctx, fd, rel, true) is Some);
    }
}

/// A guest that has nothing to write to writes to the two output streams at most.
pub proof fn law_read_only_guests_write_no_file(ctx: &WasiProcMacroCtx, fd: u32)
    requires
        read_only(ctx.fds@),
    ensures
        ctx.target_of(fd) matches Ok(target) ==> target == WriteTarget::Stdout || target
            == WriteTarget::Stderr,
{
    if let Some(entry) = ctx.entry(fd) {
        assert(is_read_only(ctx.fds@[fd as int]));
    }
}

/// A request to write below a directory that may not be written to is refused.
pub proof fn law_read_only_directory_refuses_writing(
    ctx: &WasiProcMacroCtx,
    dirfd: u32,
    rel: Seq<u8>,
)
    requires
        vstd::utf8::valid_utf8(rel),
        ctx.dir_of(dirfd) matches Ok((_, writable)) && !writable,
    ensures
        files::path_open_error(ctx, dirfd, rel, true) == Some(ERRNO_PERM),
{
}

/// Each directory that a guest starts with lies under a directory that it was given.
pub proof fn law_initial_directories_are_confined(preopens: Seq<wasi_ctx::PreopenDir>)
    ensures
        confined_to(
            wasi_ctx::initial_fds(preopens),
            Seq::new(preopens.len(), |i: int| preopens[i].root@).to_set(),
        ),
        (forall|i: int| 0 <= i < preopens.len() ==> !(#[trigger] preopens[i]).writable)
            ==> read_only(wasi_ctx::initial_fds(preopens)),
{
    let fds = wasi_ctx::initial_fds(preopens);
    let list = Seq::new(preopens.len(), |i: int| preopens[i].root@);
    assert forall|i: int| 0 <= i < fds.len() implies (dir_root(#[trigger] fds[i]) matches Some(dir)
        ==> lies_under(dir, list.to_set())) by {
        if i >= 3 {
            let dir = preopens[i - 3].root@;
            assert(list[i - 3] == dir);
            assert(list.to_set().contains(dir));
            path::law_append_starts_with(dir, Seq::empty());
        }
    }
    if forall|i: int| 0 <= i < preopens.len() ==> !(#[trigger] preopens[i]).writable {
        assert forall|i: int| 0 <= i < fds.len() implies is_read_only(#[trigger] fds[i]) by {
            if i >= 3 {
                assert(!preopens[i - 3].writable);
            }
        }
    }
}

} // verus!
