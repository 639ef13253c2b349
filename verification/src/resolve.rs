//! Which host path a guest path stands for.
//!
//! A guest names files relative to a directory that it was given. The name is refused where it
//! could lead out of that directory, be it by its own components or through a symbolic link.
use crate::errno::{
    io_error_to_errno, IoErrorKind, ERRNO_INVAL, ERRNO_IO, ERRNO_NOENT, ERRNO_PERM,
};
use crate::path;
use crate::path::{copy_name, is_current, is_parent_dir, HostPath, PathKind, PathModel};
use crate::text::from_utf8_lossy;
use vstd::prelude::*;
use vstd::string::StrSliceExecFns;

verus! {

/// What the host says of a directory and of a path below it.
#[derive(Debug)]
pub struct PathProbe {
    /// Whether the directory has a canonical path and that is a directory.
    pub root_has_canonical_dir: bool,
    /// Whether the directory is one, without its canonical path being asked for.
    pub root_is_dir: bool,
    /// Whether the path exists.
    pub exists: bool,
    /// The canonical form of the path.
    pub canonical: Result<HostPath, IoErrorKind>,
    /// The canonical form of the path without its last name.
    pub canonical_parent: Result<HostPath, IoErrorKind>,
}

impl PathProbe {
    /// The canonical paths have the names that occur in a path.
    pub open spec fn wf(&self) -> bool {
        &&& self.canonical matches Ok(canonical) ==> canonical@.wf()
        &&& self.canonical_parent matches Ok(canonical) ==> canonical@.wf()
    }
}

/// What a result says of a path.
pub open spec fn path_result<E>(result: Result<HostPath, E>) -> Result<PathModel, E> {
    match result {
        Ok(path) => Ok(path@),
        Err(error) => Err(error),
    }
}

/// Whether a path stays where it starts: it has no prefix, it does not begin at the root
/// directory, and no name in it leads to a parent directory.
pub open spec fn is_safe(rel: PathModel) -> bool {
    rel.prefix is None && !rel.rooted && !rel.names.contains(path::parent_dir())
}

/// Names without those that lead nowhere.
pub open spec fn without_current(names: Seq<Seq<u8>>) -> Seq<Seq<u8>> {
    names.filter(|name: Seq<u8>| name != path::current())
}

/// The path that leads nowhere.
pub open spec fn nowhere(kind: PathKind) -> PathModel {
    PathModel { kind, prefix: None, rooted: false, names: Seq::empty() }
}

/// The path that leads on from `start` to one name after the other.
pub open spec fn pushed(start: PathModel, names: Seq<Seq<u8>>) -> PathModel
    decreases names.len(),
{
    if names.len() == 0 {
        start
    } else {
        pushed(start, names.drop_last()).push_name(names.last())
    }
}

/// A path without the names that lead nowhere.
pub open spec fn normalized(rel: PathModel) -> PathModel {
    pushed(nowhere(rel.kind), without_current(rel.names))
}

/// Whether no name that counts on the way to `rel` below `root` starts with a drive. Where only
/// slashes mean anything, none does.
pub open spec fn names_no_drive(root: PathModel, rel: PathModel) -> bool {
    &&& path::without_drives(rel.kind, rel.names)
    &&& root.join(normalized(rel)).file_name() matches Some(name) ==> path::drive_of(
        root.kind,
        lossy_name(name),
    ) is None
}

/// Whether the canonical form of paths under a directory cannot be asked for, though it is a
/// directory.
pub open spec fn guest_fallback(root: PathModel, probe: &PathProbe) -> bool {
    root.is_absolute() && !probe.root_has_canonical_dir && probe.root_is_dir
}

/// A name, with what is not UTF-8 in it replaced.
pub open spec fn lossy_name(name: Seq<u8>) -> Seq<u8> {
    vstd::utf8::encode_utf8(crate::text::utf8_lossy(name))
}

/// A canonical path, if it lies under a directory.
pub open spec fn confined(root: PathModel, canonical: PathModel) -> Result<PathModel, i32> {
    if canonical.starts_with(root) {
        Ok(canonical)
    } else {
        Err(ERRNO_PERM)
    }
}

/// The path of a file in the canonical form of its directory, if that lies under `root`.
pub open spec fn confined_child(
    root: PathModel,
    canonical_parent: PathModel,
    target: PathModel,
) -> Result<PathModel, i32> {
    if !canonical_parent.starts_with(root) {
        Err(ERRNO_PERM)
    } else {
        match target.file_name() {
            Some(name) => Ok(canonical_parent.push_name(lossy_name(name))),
            None => Err(ERRNO_INVAL),
        }
    }
}

/// The path to open for `rel`, which need not exist yet.
pub open spec fn resolved(root: PathModel, rel: PathModel, probe: &PathProbe) -> Result<
    PathModel,
    i32,
> {
    let target = root.join(normalized(rel));
    if !is_safe(rel) {
        Err(ERRNO_PERM)
    } else if probe.exists {
        match path_result(probe.canonical) {
            Ok(canonical) => confined(root, canonical),
            Err(_) => if guest_fallback(root, probe) {
                Ok(target)
            } else {
                Err(ERRNO_IO)
            },
        }
    } else if target.parent() is None {
        Err(ERRNO_PERM)
    } else {
        match path_result(probe.canonical_parent) {
            Ok(canonical) => confined_child(root, canonical, target),
            Err(_) => if guest_fallback(root, probe) {
                Ok(target)
            } else {
                Err(ERRNO_NOENT)
            },
        }
    }
}

/// The path of what `rel` names, which has to exist.
pub open spec fn resolved_existing(
    root: PathModel,
    rel: PathModel,
    follow_symlink: bool,
    probe: &PathProbe,
) -> Result<PathModel, i32> {
    let target = root.join(normalized(rel));
    if !is_safe(rel) {
        Err(ERRNO_PERM)
    } else if follow_symlink {
        match path_result(probe.canonical) {
            Ok(canonical) => confined(root, canonical),
            Err(kind) => if guest_fallback(root, probe) {
                Ok(target)
            } else {
                Err(crate::errno::errno_of(kind))
            },
        }
    } else if normalized(rel) == nowhere(rel.kind) {
        Ok(root)
    } else if target.parent() is None {
        Err(ERRNO_PERM)
    } else {
        match path_result(probe.canonical_parent) {
            Ok(canonical) => confined_child(root, canonical, target),
            Err(kind) => if guest_fallback(root, probe) {
                Ok(target)
            } else {
                Err(crate::errno::errno_of(kind))
            },
        }
    }
}

/// Whatever the host answers, the path to open lies under the directory it was named in, as long
/// as no name starts with a drive.
pub proof fn law_resolved_stays_under_root(root: PathModel, rel: PathModel, probe: &PathProbe)
    requires
        names_no_drive(root, rel),
    ensures
        resolved(root, rel, probe) matches Ok(found) ==> found.starts_with(root),
{
    lemma_target_starts_with(root, rel);
    if let Ok(canonical) = path_result(probe.canonical_parent) {
        lemma_child_starts_with(root, canonical, rel);
    }
}

/// Whatever the host answers, the path of what exists lies under the directory it was named in,
/// as long as no name starts with a drive.
pub proof fn law_resolved_existing_stays_under_root(
    root: PathModel,
    rel: PathModel,
    follow_symlink: bool,
    probe: &PathProbe,
)
    requires
        names_no_drive(root, rel),
    ensures
        resolved_existing(root, rel, follow_symlink, probe) matches Ok(found) ==> found.starts_with(
            root,
        ),
{
    lemma_target_starts_with(root, rel);
    path::law_append_starts_with(root, Seq::empty());
    if let Ok(canonical) = path_result(probe.canonical_parent) {
        lemma_child_starts_with(root, canonical, rel);
    }
}

/// Where only slashes mean anything, no name starts with a drive.
pub proof fn law_slash_paths_name_no_drive(root: PathModel, rel: PathModel)
    requires
        root.kind == PathKind::Slash,
        rel.kind == PathKind::Slash,
    ensures
        names_no_drive(root, rel),
{
}

/// A path with a name that leads to a parent directory, with a prefix, or one that begins at the
/// root directory, is refused, whatever the host answers.
pub proof fn law_unsafe_paths_are_refused(
    root: PathModel,
    rel: PathModel,
    follow_symlink: bool,
    probe: &PathProbe,
)
    requires
        rel.rooted || rel.prefix is Some || rel.names.contains(path::parent_dir()),
    ensures
        resolved(root, rel, probe) == Err::<PathModel, i32>(ERRNO_PERM),
        resolved_existing(root, rel, follow_symlink, probe) == Err::<PathModel, i32>(ERRNO_PERM),
{
}

/// A canonical path outside of the directory is refused: a symbolic link leads nowhere else.
pub proof fn law_symlinks_do_not_break_out(root: PathModel, rel: PathModel, probe: &PathProbe)
    requires
        probe.exists,
        probe.canonical matches Ok(canonical) && !canonical@.starts_with(root),
    ensures
        resolved(root, rel, probe) == Err::<PathModel, i32>(ERRNO_PERM),
        resolved_existing(root, rel, true, probe) == Err::<PathModel, i32>(ERRNO_PERM),
{
}

/// A leading `./` is ignored, except before a path that begins at the root directory or with a
/// drive.
pub proof fn law_leading_current_is_ignored(kind: PathKind, rel: Seq<u8>)
    requires
        rel.len() == 0 || !path::separates(kind, rel[0]),
        path::drive_of(kind, rel) is None,
    ensures
        normalized(path::path_of(kind, seq![path::DOT, path::SLASH] + rel)) == normalized(
            path::path_of(kind, rel),
        ),
        is_safe(path::path_of(kind, seq![path::DOT, path::SLASH] + rel)) == is_safe(
            path::path_of(kind, rel),
        ),
{
    let with = path::path_of(kind, seq![path::DOT, path::SLASH] + rel);
    let without = path::path_of(kind, rel);
    lemma_pieces_after_current(kind, rel);
    lemma_named_after_current(path::pieces(kind, rel));
    lemma_parent_is_kept(with.names);
    lemma_parent_is_kept(without.names);
}

/// Names that lead to a parent directory are not left out.
proof fn lemma_parent_is_kept(names: Seq<Seq<u8>>)
    ensures
        without_current(names).contains(path::parent_dir()) == names.contains(path::parent_dir()),
{
    broadcast use vstd::seq_lib::group_filter_ensures;

    lemma_kept_names(names);
    assert(path::parent_dir().len() != path::current().len());
}

/// The pieces of a path with a leading `./`.
proof fn lemma_pieces_after_current(kind: PathKind, rel: Seq<u8>)
    ensures
        path::pieces(kind, seq![path::DOT, path::SLASH] + rel) == seq![path::current()]
            + path::pieces(kind, rel),
        path::pieces(kind, rel).len() > 0,
    decreases rel.len(),
{
    let start = seq![path::DOT, path::SLASH];
    if rel.len() == 0 {
        reveal_with_fuel(path::pieces, 3);
        assert(start + rel =~= start);
        assert(start.drop_last() =~= seq![path::DOT]);
        assert(seq![path::DOT].drop_last() =~= Seq::<u8>::empty());
        assert(Seq::<u8>::empty().push(path::DOT) =~= path::current());
        assert(path::pieces(kind, start) =~= seq![path::current(), Seq::<u8>::empty()]);
    } else {
        lemma_pieces_after_current(kind, rel.drop_last());
        assert((start + rel).drop_last() =~= start + rel.drop_last());
        let before = path::pieces(kind, rel.drop_last());
        let all = seq![path::current()] + before;
        assert(all.last() == before.last());
        if path::separates(kind, rel.last()) {
            assert(all.push(Seq::empty()) =~= seq![path::current()] + before.push(Seq::empty()));
        } else {
            let last = before.last().push(rel.last());
            assert(all.drop_last().push(last) =~= seq![path::current()] + before.drop_last().push(
                last,
            ));
        }
    }
}

/// The names of a path with a leading `.`.
proof fn lemma_named_after_current(list: Seq<Seq<u8>>)
    ensures
        without_current(path::named(seq![path::current()] + list, false)) == without_current(
            path::named(list, false),
        ),
    decreases list.len(),
{
    broadcast use vstd::seq_lib::group_filter_ensures;

    let all = seq![path::current()] + list;
    if list.len() == 0 {
        assert(all =~= seq![path::current()]);
        reveal_with_fuel(path::named, 2);
        assert(all.drop_last() =~= Seq::<Seq<u8>>::empty());
        assert(path::named(all, false) =~= Seq::<Seq<u8>>::empty().push(path::current()));
        lemma_filter_push(Seq::empty(), path::current());
        assert(path::named(list, false) =~= Seq::<Seq<u8>>::empty());
    } else {
        lemma_named_after_current(list.drop_last());
        assert(all.drop_last() =~= seq![path::current()] + list.drop_last());
        lemma_filter_push(path::named(all.drop_last(), false), list.last());
        lemma_filter_push(path::named(list.drop_last(), false), list.last());
    }
}

/// What the last name adds.
proof fn lemma_filter_push(names: Seq<Seq<u8>>, name: Seq<u8>)
    ensures
        without_current(names.push(name)) == (if name == path::current() {
            without_current(names)
        } else {
            without_current(names).push(name)
        }),
{
    reveal(Seq::filter);
    assert(names.push(name).drop_last() =~= names);
}

/// A path that is let through has neither `.` nor `..` left among its names, and no other name is
/// missing, as long as none starts with a drive.
pub proof fn law_normalized_names(rel: PathModel)
    requires
        is_safe(rel),
        path::without_drives(rel.kind, rel.names),
    ensures
        normalized(rel) == nowhere(rel.kind).append(without_current(rel.names)),
        !normalized(rel).names.contains(path::current()),
        !normalized(rel).names.contains(path::parent_dir()),
{
    lemma_kept_names(rel.names);
    lemma_normalized_appends(rel);
    assert(normalized(rel).names =~= without_current(rel.names));
}

/// Where a path leads below a directory is a path with the names that occur in one.
pub proof fn law_target_names(root: PathModel, rel: PathModel)
    requires
        root.wf(),
        rel.wf(),
    ensures
        normalized(rel).wf(),
        root.join(normalized(rel)).wf(),
{
    lemma_normalized_names(rel);
}

/// What is left of a path are the names that occur in one, and without `.` where it has no
/// prefix.
proof fn lemma_normalized_names(rel: PathModel)
    requires
        rel.wf(),
    ensures
        normalized(rel).wf(),
        normalized(rel).prefix is None ==> !normalized(rel).rooted && !normalized(
            rel,
        ).names.contains(path::current()),
{
    let kept = without_current(rel.names);
    lemma_kept_names(rel.names);
    assert forall|k: int| 0 <= k < kept.len() implies (#[trigger] kept[k]).len() > 0 && kept[k]
        != path::current() by {
        assert(kept.contains(kept[k]));
    }
    lemma_pushed_names(rel.kind, kept);
}

/// What names lead to is a path with the names that occur in one, and without `.` where it has no
/// prefix.
proof fn lemma_pushed_names(kind: PathKind, names: Seq<Seq<u8>>)
    requires
        forall|i: int|
            0 <= i < names.len() ==> (#[trigger] names[i]).len() > 0 && names[i] != path::current(),
    ensures
        ({
            let all = pushed(nowhere(kind), names);
            &&& all.wf()
            &&& all.kind == kind
            &&& all.prefix is None ==> !all.rooted && !all.names.contains(path::current())
        }),
    decreases names.len(),
{
    if names.len() > 0 {
        let fewer = names.drop_last();
        assert forall|i: int| 0 <= i < fewer.len() implies (#[trigger] fewer[i]).len() > 0
            && fewer[i] != path::current() by {
            assert(fewer[i] == names[i]);
        }
        lemma_pushed_names(kind, fewer);
        path::law_parsed_names(kind, names.last());
    }
}

/// Without a drive, each name is put behind the others.
proof fn lemma_pushed_appends(start: PathModel, names: Seq<Seq<u8>>)
    requires
        path::without_drives(start.kind, names),
    ensures
        pushed(start, names) == start.append(names),
    decreases names.len(),
{
    if names.len() > 0 {
        let fewer = names.drop_last();
        assert forall|i: int| 0 <= i < fewer.len() implies path::drive_of(
            start.kind,
            #[trigger] fewer[i],
        ) is None by {
            assert(fewer[i] == names[i]);
        }
        lemma_pushed_appends(start, fewer);
        assert(names =~= fewer + seq![names.last()]);
        assert(start.append(fewer).append(seq![names.last()]).names =~= start.append(names).names);
    } else {
        assert(start.append(names).names =~= start.names);
    }
}

/// What is left of names are names that lead somewhere.
proof fn lemma_kept_names(names: Seq<Seq<u8>>)
    ensures
        forall|name: Seq<u8>| #[trigger]
            without_current(names).contains(name) ==> name != path::current() && names.contains(
                name,
            ),
{
    broadcast use vstd::seq_lib::group_filter_ensures;

    let pred = |name: Seq<u8>| name != path::current();
    assert forall|name: Seq<u8>| #[trigger] without_current(names).contains(name) implies name
        != path::current() && names.contains(name) by {
        names.lemma_filter_contains_rev(pred, name);
        let kept = names.filter(pred);
        let k = choose|k: int| 0 <= k < kept.len() && kept[k] == name;
        names.lemma_filter_pred(pred, k);
    }
}

/// Without a drive, all that changes is that names are left out.
proof fn lemma_normalized_appends(rel: PathModel)
    requires
        path::without_drives(rel.kind, rel.names),
    ensures
        normalized(rel) == nowhere(rel.kind).append(without_current(rel.names)),
{
    let kept = without_current(rel.names);
    lemma_kept_names(rel.names);
    assert forall|i: int| 0 <= i < kept.len() implies path::drive_of(
        rel.kind,
        #[trigger] kept[i],
    ) is None by {
        assert(kept.contains(kept[i]));
    }
    lemma_pushed_appends(nowhere(rel.kind), kept);
}

proof fn lemma_target_starts_with(root: PathModel, rel: PathModel)
    requires
        path::without_drives(rel.kind, rel.names),
    ensures
        root.join(normalized(rel)).starts_with(root),
{
    lemma_normalized_appends(rel);
    path::law_append_starts_with(root, normalized(rel).names);
}

proof fn lemma_child_starts_with(root: PathModel, canonical: PathModel, rel: PathModel)
    requires
        names_no_drive(root, rel),
    ensures
        confined_child(root, canonical, root.join(normalized(rel))) matches Ok(found)
            ==> found.starts_with(root),
{
    if let Some(name) = root.join(normalized(rel)).file_name() {
        let child = canonical.append(seq![lossy_name(name)]);
        path::law_append_starts_with(canonical, seq![lossy_name(name)]);
        if canonical.starts_with(root) {
            path::law_starts_with_transitive(child, canonical, root);
        }
    }
}

/// A name with what is not UTF-8 in it replaced is neither empty nor `.`.
proof fn lemma_replaced_name(name: Seq<u8>, text: Seq<char>)
    requires
        name.len() > 0,
        name != path::current(),
        vstd::utf8::valid_utf8(name) ==> text == vstd::utf8::decode_utf8(name),
        !vstd::utf8::valid_utf8(name) ==> text.contains('\u{FFFD}'),
    ensures
        vstd::utf8::encode_utf8(text).len() > 0,
        vstd::utf8::encode_utf8(text) != path::current(),
{
    if vstd::utf8::valid_utf8(name) {
        vstd::utf8::decode_utf8_encode_utf8(name);
    } else {
        lemma_encoded_length(text);
    }
}

/// U+FFFD takes more than one byte.
proof fn lemma_encoded_length(text: Seq<char>)
    ensures
        vstd::utf8::encode_utf8(text).len() >= text.len(),
        text.contains('\u{FFFD}') ==> vstd::utf8::encode_utf8(text).len() > 1,
    decreases text.len(),
{
    if text.len() > 0 {
        let rest = text.drop_first();
        lemma_encoded_length(rest);
        if text.contains('\u{FFFD}') && text[0] != '\u{FFFD}' {
            let k = choose|k: int| 0 <= k < text.len() && text[k] == '\u{FFFD}';
            assert(rest[k - 1] == '\u{FFFD}');
        }
    }
}

/// Whether a path stays where it starts.
pub fn is_rel_path_safe(rel: &HostPath) -> (yes: bool)
    ensures
        yes == is_safe(rel@),
{
    if rel.rooted || rel.prefix.is_some() {
        return false;
    }
    let mut i: usize = 0;
    while i < rel.names.len()
        invariant
            i <= rel.names@.len(),
            forall|j: int| 0 <= j < i ==> rel@.names[j] != path::parent_dir(),
        decreases rel.names@.len() - i,
    {
        if is_parent_dir(&rel.names[i]) {
            assert(rel@.names[i as int] == path::parent_dir());
            return false;
        }
        i += 1;
    }
    true
}

/// A relative path without the names that lead nowhere; an error for one that does not stay
/// where it starts.
pub fn normalize_rel_path(rel: &HostPath) -> (found: Result<HostPath, i32>)
    ensures
        path_result(found) == (if is_safe(rel@) {
            Ok(normalized(rel@))
        } else {
            Err(ERRNO_PERM)
        }),
        found matches Ok(found) ==> rel@.wf() ==> found@.wf() && (found@.prefix is None
            && !found@.rooted ==> !found@.names.contains(path::current())),
{
    if !is_rel_path_safe(rel) {
        return Err(ERRNO_PERM);
    }
    let mut found = HostPath { kind: rel.kind, prefix: None, rooted: false, names: Vec::new() };
    let ghost keep = |name: Seq<u8>| name != path::current();
    let mut i: usize = 0;
    proof {
        reveal(Seq::filter);
        assert(found@ =~= nowhere(rel.kind));
        assert(rel@.names.take(0).filter(keep) =~= Seq::empty());
    }
    while i < rel.names.len()
        invariant
            i <= rel.names@.len(),
            keep == (|name: Seq<u8>| name != path::current()),
            found@ == pushed(nowhere(rel.kind), rel@.names.take(i as int).filter(keep)),
        decreases rel.names@.len() - i,
    {
        let ghost before = rel@.names.take(i as int).filter(keep);
        proof {
            reveal(Seq::filter);
            assert(rel@.names.take(i + 1).drop_last() =~= rel@.names.take(i as int));
            assert(rel@.names.take(i + 1).last() == rel.names@[i as int]@);
        }
        if !is_current(&rel.names[i]) {
            found = found.join_name(copy_name(&rel.names[i]));
            assert(before.push(rel.names@[i as int]@).drop_last() =~= before);
        }
        i += 1;
    }
    proof {
        assert(rel@.names.take(i as int) =~= rel@.names);
        if rel@.wf() {
            lemma_normalized_names(rel@);
        }
    }
    Ok(found)
}

/// Whether the canonical form of paths under a directory cannot be asked for.
pub fn should_fallback_to_guest_path(root: &HostPath, probe: &PathProbe) -> (yes: bool)
    ensures
        yes == guest_fallback(root@, probe),
{
    root.is_absolute() && !probe.root_has_canonical_dir && probe.root_is_dir
}

/// A canonical path, if it lies under a directory.
fn confine(root: &HostPath, canonical: &HostPath) -> (found: Result<HostPath, i32>)
    ensures
        path_result(found) == confined(root@, canonical@),
        found matches Ok(found) ==> canonical@.wf() ==> found@.wf(),
{
    if canonical.starts_with(root) {
        Ok(canonical.duplicate())
    } else {
        Err(ERRNO_PERM)
    }
}

/// The path of a file in the canonical form of its directory, if that lies under `root`.
fn confine_child(root: &HostPath, canonical_parent: &HostPath, target: &HostPath) -> (found: Result<
    HostPath,
    i32,
>)
    ensures
        path_result(found) == confined_child(root@, canonical_parent@, target@),
        found matches Ok(found) ==> canonical_parent@.wf() && target@.wf() ==> found@.wf(),
{
    if !canonical_parent.starts_with(root) {
        return Err(ERRNO_PERM);
    }
    match target.file_name() {
        Some(name) => {
            let text = from_utf8_lossy(name.as_slice());
            proof {
                if target@.wf() {
                    lemma_replaced_name(name@, text@);
                }
            }
            Ok(canonical_parent.join_name(text.as_str().as_bytes_vec()))
        },
        None => Err(ERRNO_INVAL),
    }
}

/// The path to open for `rel`, which need not exist yet. The probe is that of `rel` below
/// `root`.
pub fn resolve_in_preopen(root: &HostPath, rel: &HostPath, probe: &PathProbe) -> (found: Result<
    HostPath,
    i32,
>)
    ensures
        path_result(found) == resolved(root@, rel@, probe),
        found matches Ok(found) ==> root@.wf() && rel@.wf() && probe.wf() ==> found@.wf(),
{
    let rel = match normalize_rel_path(rel) {
        Ok(rel) => rel,
        Err(errno) => return Err(errno),
    };
    let allow_guest_fallback = should_fallback_to_guest_path(root, probe);
    let target = root.join(&rel);
    if probe.exists {
        return match &probe.canonical {
            Ok(canonical) => confine(root, canonical),
            Err(_) => if allow_guest_fallback {
                Ok(target)
            } else {
                Err(ERRNO_IO)
            },
        };
    }
    if target.parent().is_none() {
        return Err(ERRNO_PERM);
    }
    match &probe.canonical_parent {
        Ok(canonical) => confine_child(root, canonical, &target),
        Err(_) => if allow_guest_fallback {
            Ok(target)
        } else {
            Err(ERRNO_NOENT)
        },
    }
}

/// The path of what `rel` names, which has to exist. The probe is that of `rel` below `root`.
pub fn resolve_existing_in_preopen(
    root: &HostPath,
    rel: &HostPath,
    follow_symlink: bool,
    probe: &PathProbe,
) -> (found: Result<HostPath, i32>)
    ensures
        path_result(found) == resolved_existing(root@, rel@, follow_symlink, probe),
        found matches Ok(found) ==> root@.wf() && rel@.wf() && probe.wf() ==> found@.wf(),
{
    let rel = match normalize_rel_path(rel) {
        Ok(rel) => rel,
        Err(errno) => return Err(errno),
    };
    let allow_guest_fallback = should_fallback_to_guest_path(root, probe);
    let target = root.join(&rel);
    if follow_symlink {
        return match &probe.canonical {
            Ok(canonical) => confine(root, canonical),
            Err(kind) => if allow_guest_fallback {
                Ok(target)
            } else {
                Err(io_error_to_errno(*kind))
            },
        };
    }
    if rel.names.len() == 0 && rel.prefix.is_none() {
        assert(rel@ =~= nowhere(rel.kind));
        return Ok(root.duplicate());
    }
    if target.parent().is_none() {
        return Err(ERRNO_PERM);
    }
    match &probe.canonical_parent {
        Ok(canonical) => confine_child(root, canonical, &target),
        Err(kind) => if allow_guest_fallback {
            Ok(target)
        } else {
            Err(io_error_to_errno(*kind))
        },
    }
}

/// A path stays where it starts exactly if it has no prefix, does not begin at the root directory,
/// and none of its names is `..`.
pub proof fn law_safe_paths(rel: PathModel)
    ensures
        is_safe(rel) <==> rel.prefix is None && !rel.rooted && forall|i: int|
            0 <= i < rel.names.len() ==> (#[trigger] rel.names[i]) != seq![0x2eu8, 0x2eu8],
{
    if rel.names.contains(path::parent_dir()) {
        let i = choose|i: int| 0 <= i < rel.names.len() && rel.names[i] == path::parent_dir();
        assert(rel.names[i] == seq![0x2eu8, 0x2eu8]);
    }
}

/// A text is let through exactly if it starts neither with a separator nor with a drive, and none
/// of the pieces between its separators is `..`.
pub proof fn law_safe_texts(kind: PathKind, rel: Seq<u8>)
    ensures
        is_safe(path::path_of(kind, rel)) <==> path::drive_of(kind, rel) is None && (rel.len() == 0
            || !path::separates(kind, rel[0])) && !path::pieces(kind, rel).contains(
            seq![0x2eu8, 0x2eu8],
        ),
{
    let up = seq![0x2eu8, 0x2eu8];
    let parsed = path::path_of(kind, rel);
    let list = path::pieces(kind, rel);
    assert(path::parent_dir() == up);
    path::law_parsed_paths(kind, rel);
    if path::drive_of(kind, rel) is None {
        path::law_named_pieces(list, parsed.rooted);
        let keep = |piece: Seq<u8>| path::leads_on(piece);
        lemma_filter_holds(list, keep, up);
        assert(path::leads_on(up)) by {
            assert(up.len() != seq![0x2eu8].len());
        }
        let kept = list.filter(keep);
        if !parsed.rooted && list.len() > 0 && list[0] == seq![0x2eu8] {
            let all = seq![list[0]] + kept;
            if all.contains(up) {
                let i = choose|i: int| 0 <= i < all.len() && all[i] == up;
                assert(i > 0) by {
                    assert(up.len() != seq![0x2eu8].len());
                }
                assert(kept[i - 1] == up);
            }
            if kept.contains(up) {
                let i = choose|i: int| 0 <= i < kept.len() && kept[i] == up;
                assert(all[i + 1] == up);
            }
        }
    }
}

/// What a filter lets through.
proof fn lemma_filter_holds(
    list: Seq<Seq<u8>>,
    keep: spec_fn(Seq<u8>) -> bool,
    name: Seq<u8>,
)
    ensures
        list.filter(keep).contains(name) <==> list.contains(name) && keep(name),
    decreases list.len(),
{
    reveal(Seq::filter);
    if list.len() > 0 {
        let fewer = list.drop_last();
        lemma_filter_holds(fewer, keep, name);
        let before = fewer.filter(keep);
        assert(list[list.len() - 1] == list.last());
        if fewer.contains(name) {
            let i = choose|i: int| 0 <= i < fewer.len() && fewer[i] == name;
            assert(list[i] == name);
        }
        if list.contains(name) && list.last() != name {
            let i = choose|i: int| 0 <= i < list.len() && list[i] == name;
            assert(fewer[i] == name);
        }
        if keep(list.last()) {
            let all = before.push(list.last());
            assert(all[all.len() - 1] == list.last());
            if before.contains(name) {
                let i = choose|i: int| 0 <= i < before.len() && before[i] == name;
                assert(all[i] == name);
            }
            if all.contains(name) && list.last() != name {
                let i = choose|i: int| 0 <= i < all.len() && all[i] == name;
                assert(before[i] == name);
            }
        }
    }
}

/// A text that is let through leads to its pieces that are neither empty nor `.`, in their order,
/// as long as none of them starts with a drive.
pub proof fn law_normalized_text(kind: PathKind, rel: Seq<u8>)
    requires
        is_safe(path::path_of(kind, rel)),
        path::without_drives(kind, path::pieces(kind, rel)),
    ensures
        normalized(path::path_of(kind, rel)) == (PathModel {
            kind,
            prefix: None,
            rooted: false,
            names: path::pieces(kind, rel).filter(|piece: Seq<u8>| path::leads_on(piece)),
        }),
{
    let keep = |piece: Seq<u8>| path::leads_on(piece);
    let parsed = path::path_of(kind, rel);
    let list = path::pieces(kind, rel);
    path::law_parsed_paths(kind, rel);
    path::law_named_pieces(list, false);
    let kept = list.filter(keep);
    assert forall|i: int| 0 <= i < parsed.names.len() implies path::drive_of(
        kind,
        #[trigger] parsed.names[i],
    ) is None by {
        if list.len() > 0 && list[0] == seq![0x2eu8] && i == 0 {
        } else {
            let name = parsed.names[i];
            assert(kept.contains(name)) by {
                if list.len() > 0 && list[0] == seq![0x2eu8] {
                    assert(kept[i - 1] == name);
                } else {
                    assert(kept[i] == name);
                }
            }
            lemma_filter_holds(list, keep, name);
            let k = choose|k: int| 0 <= k < list.len() && list[k] == name;
            assert(path::drive_of(kind, list[k]) is None);
        }
    }
    lemma_normalized_appends(parsed);
    lemma_current_filtered(list);
    if list.len() > 0 && list[0] == seq![0x2eu8] {
        lemma_current_first(kept);
    }
    assert(without_current(parsed.names) =~= kept);
    assert(normalized(parsed).names =~= kept);
}

/// A filter for pieces that lead somewhere leaves no `.`.
proof fn lemma_current_filtered(list: Seq<Seq<u8>>)
    ensures
        without_current(list.filter(|piece: Seq<u8>| path::leads_on(piece))) == list.filter(
            |piece: Seq<u8>| path::leads_on(piece),
        ),
    decreases list.len(),
{
    let keep = |piece: Seq<u8>| path::leads_on(piece);
    reveal(Seq::filter);
    if list.len() > 0 {
        lemma_current_filtered(list.drop_last());
        if keep(list.last()) {
            lemma_filter_push(list.drop_last().filter(keep), list.last());
        }
    } else {
        assert(without_current(list.filter(keep)) =~= list.filter(keep));
    }
}

/// A `.` at the front is left out.
proof fn lemma_current_first(names: Seq<Seq<u8>>)
    ensures
        without_current(seq![seq![0x2eu8]] + names) == without_current(names),
    decreases names.len(),
{
    let dot = seq![seq![0x2eu8]];
    assert(path::current() == seq![0x2eu8]);
    if names.len() == 0 {
        assert(dot + names =~= Seq::<Seq<u8>>::empty().push(path::current()));
        lemma_filter_push(Seq::empty(), path::current());
        assert(names =~= Seq::<Seq<u8>>::empty());
    } else {
        let fewer = names.drop_last();
        lemma_current_first(fewer);
        lemma_filter_push(fewer, names.last());
        lemma_filter_push(dot + fewer, names.last());
        assert(fewer.push(names.last()) =~= names);
        assert((dot + fewer).push(names.last()) =~= dot + names);
    }
}

/// Where a path leads is opened by its canonical path where it exists, if that lies under the
/// directory; another canonical path is refused.
pub proof fn law_existing_paths_open_canonically(
    root: PathModel,
    rel: PathModel,
    probe: &PathProbe,
    canonical: PathModel,
)
    requires
        is_safe(rel),
        path_result(probe.canonical) == Ok::<PathModel, IoErrorKind>(canonical),
    ensures
        probe.exists ==> resolved(root, rel, probe) == (if canonical.starts_with(root) {
            Ok(canonical)
        } else {
            Err::<PathModel, i32>(63)
        }),
        resolved_existing(root, rel, true, probe) == (if canonical.starts_with(root) {
            Ok(canonical)
        } else {
            Err::<PathModel, i32>(63)
        }),
{
}

/// What does not exist yet, or is not to be followed, is opened under its own name in the canonical
/// path of its directory, if that lies under the directory that the guest was given.
pub proof fn law_new_paths_open_in_their_directory(
    root: PathModel,
    rel: PathModel,
    probe: &PathProbe,
    parent: PathModel,
    name: Seq<u8>,
)
    requires
        is_safe(rel),
        path_result(probe.canonical_parent) == Ok::<PathModel, IoErrorKind>(parent),
        root.join(normalized(rel)).file_name() == Some(name),
        path::drive_of(parent.kind, lossy_name(name)) is None,
    ensures
        ({
            let found = if parent.starts_with(root) {
                Ok(parent.append(seq![lossy_name(name)]))
            } else {
                Err::<PathModel, i32>(63)
            };
            &&& !probe.exists ==> resolved(root, rel, probe) == found
            &&& normalized(rel) != nowhere(rel.kind) ==> resolved_existing(root, rel, false, probe)
                == found
        }),
{
}

/// The directory itself, where it is not to be followed, is what it is known by, whatever the host
/// says.
pub proof fn law_directory_itself(root: PathModel, rel: PathModel, probe: &PathProbe)
    requires
        is_safe(rel),
        forall|i: int| 0 <= i < rel.names.len() ==> (#[trigger] rel.names[i]) == seq![0x2eu8],
    ensures
        resolved_existing(root, rel, false, probe) == Ok::<PathModel, i32>(root),
{
    lemma_kept_names(rel.names);
    let kept = without_current(rel.names);
    if kept.len() > 0 {
        assert(kept.contains(kept[0]));
        let i = choose|i: int| 0 <= i < rel.names.len() && rel.names[i] == kept[0];
        assert(rel.names[i] == seq![0x2eu8]);
    }
    assert(kept =~= Seq::<Seq<u8>>::empty());
}

/// Where the host cannot give a canonical path, the path is taken as the guest wrote it exactly if
/// the directory is absolute, has no canonical path either, and is a directory. Otherwise it is an
/// error, which depends on what was asked for.
pub proof fn law_without_canonical_paths(
    root: PathModel,
    rel: PathModel,
    probe: &PathProbe,
    kind: IoErrorKind,
)
    requires
        is_safe(rel),
    ensures
        ({
            let as_written = root.is_absolute() && !probe.root_has_canonical_dir
                && probe.root_is_dir;
            let target = root.join(normalized(rel));
            &&& probe.exists && probe.canonical is Err ==> resolved(root, rel, probe) == (
            if as_written {
                Ok(target)
            } else {
                Err::<PathModel, i32>(29)
            })
            &&& !probe.exists && target.names.len() > 0 && probe.canonical_parent is Err
                ==> resolved(root, rel, probe) == (if as_written {
                Ok(target)
            } else {
                Err::<PathModel, i32>(44)
            })
            &&& probe.canonical == Err::<HostPath, IoErrorKind>(kind) ==> resolved_existing(
                root,
                rel,
                true,
                probe,
            ) == (if as_written {
                Ok(target)
            } else {
                Err::<PathModel, i32>(crate::errno::errno_of(kind))
            })
            &&& probe.canonical_parent == Err::<HostPath, IoErrorKind>(kind) && target.names.len()
                > 0 && normalized(rel) != nowhere(rel.kind) ==> resolved_existing(
                root,
                rel,
                false,
                probe,
            ) == (if as_written {
                Ok(target)
            } else {
                Err::<PathModel, i32>(crate::errno::errno_of(kind))
            })
        }),
{
}

/// A path that does not exist and has no directory above it is refused, and one whose last name
/// leads nowhere is no valid name for something new.
pub proof fn law_paths_without_last_name(root: PathModel, rel: PathModel, probe: &PathProbe)
    requires
        is_safe(rel),
        !probe.exists,
    ensures
        root.join(normalized(rel)).names.len() == 0 ==> resolved(root, rel, probe) == Err::<
            PathModel,
            i32,
        >(63),
        root.join(normalized(rel)).names.len() > 0 && root.join(normalized(rel)).file_name() is None
            && (path_result(probe.canonical_parent) matches Ok(parent) && parent.starts_with(root))
            ==> resolved(root, rel, probe) == Err::<PathModel, i32>(28),
{
}

/// A name that is replaced is what `utf8_lossy` makes of it, encoded as UTF-8.
pub proof fn law_lossy_names(name: Seq<u8>)
    ensures
        lossy_name(name) == vstd::utf8::encode_utf8(crate::text::utf8_lossy(name)),
{
}

/// A path is followed name by name: one more name leads on from where the path led, unless it is
/// `.`, which leads nowhere.
pub proof fn law_followed_names(rel: PathModel, name: Seq<u8>)
    ensures
        ({
            let longer = PathModel { names: rel.names.push(name), ..rel };
            &&& name == seq![0x2eu8] ==> normalized(longer) == normalized(rel)
            &&& name != seq![0x2eu8] ==> normalized(longer) == normalized(rel).push_name(name)
        }),
        rel.names.len() == 0 ==> normalized(rel) == (PathModel {
            kind: rel.kind,
            prefix: None,
            rooted: false,
            names: Seq::empty(),
        }),
{
    let longer = PathModel { names: rel.names.push(name), ..rel };
    assert(path::current() == seq![0x2eu8]);
    lemma_filter_push(rel.names, name);
    if name != seq![0x2eu8] {
        let kept = without_current(rel.names);
        assert(kept.push(name).drop_last() =~= kept);
    }
    if rel.names.len() == 0 {
        reveal(Seq::filter);
        assert(rel.names.filter(|name: Seq<u8>| name != path::current()) =~= Seq::<
            Seq<u8>,
        >::empty());
    }
}

/// What is not to be followed is refused where it has no directory above it, where that lies
/// elsewhere, and where it has no last name. So is what does not exist yet and would lie elsewhere.
pub proof fn law_refused_names(
    root: PathModel,
    rel: PathModel,
    probe: &PathProbe,
    parent: PathModel,
)
    requires
        is_safe(rel),
        path_result(probe.canonical_parent) == Ok::<PathModel, IoErrorKind>(parent),
    ensures
        ({
            let target = root.join(normalized(rel));
            let found = resolved_existing(root, rel, false, probe);
            let moves = normalized(rel) != nowhere(rel.kind);
            &&& moves && target.names.len() == 0 ==> found == Err::<PathModel, i32>(63)
            &&& moves && target.names.len() > 0 && !parent.starts_with(root) ==> found == Err::<
                PathModel,
                i32,
            >(63)
            &&& moves && target.names.len() > 0 && parent.starts_with(root) && target.file_name() is
                None ==> found == Err::<PathModel, i32>(28)
            &&& !probe.exists && !parent.starts_with(root) ==> resolved(root, rel, probe) == Err::<
                PathModel,
                i32,
            >(63)
        }),
{
}

/// What a result says of a path is the path, or the error.
pub proof fn law_results_with_paths<E>(path: HostPath, error: E)
    ensures
        path_result(Ok::<HostPath, E>(path)) == Ok::<PathModel, E>(path@),
        path_result(Err::<HostPath, E>(error)) == Err::<PathModel, E>(error),
{
}

} // verus!
