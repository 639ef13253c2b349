//! Paths, by their components.
//!
//! How a path is written depends on the host. Everywhere a slash separates names, and one at the
//! front makes a path start at the root directory. On Windows a backslash does the same, and a
//! path can have a prefix, such as that of a drive.
use crate::memory;
use crate::memory::{copy_out, same_bytes};
use vstd::prelude::*;

verus! {

/// How a host writes its paths.
#[derive(Clone, Copy, Debug, PartialEq, Eq, Structural)]
pub enum PathKind {
    /// Only a slash means anything.
    Slash,
    Windows,
}

/// A path: its prefix if it has one, whether it starts at the root directory, and the names on
/// the way.
///
/// A drive as a prefix is written as an upper-case letter and a colon. Every other prefix is in
/// the words of the host, and two of them are the same where the host takes them for the same.
/// Which names occur, [`PathModel::wf`] says.
#[derive(Debug)]
pub struct HostPath {
    pub kind: PathKind,
    pub prefix: Option<Vec<u8>>,
    pub rooted: bool,
    pub names: Vec<Vec<u8>>,
}

/// What a [`HostPath`] says.
#[verifier::ext_equal]
pub struct PathModel {
    pub kind: PathKind,
    pub prefix: Option<Seq<u8>>,
    pub rooted: bool,
    pub names: Seq<Seq<u8>>,
}

impl View for HostPath {
    type V = PathModel;

    open spec fn view(&self) -> PathModel {
        PathModel {
            kind: self.kind,
            prefix: match self.prefix {
                Some(prefix) => Some(prefix@),
                None => None,
            },
            rooted: self.rooted,
            names: memory::byte_seqs(self.names@),
        }
    }
}

/// A component of a path.
pub enum Component {
    Prefix(Seq<u8>),
    Root,
    Name(Seq<u8>),
}

/// The separator of names.
pub const SLASH: u8 = 47;

/// The other separator of names on Windows.
pub const BACKSLASH: u8 = 92;

/// The byte of `.`.
pub const DOT: u8 = 46;

/// The byte behind the letter of a drive.
pub const COLON: u8 = 58;

/// The name of the current directory.
pub open spec fn current() -> Seq<u8> {
    seq![DOT]
}

/// The name of the parent directory.
pub open spec fn parent_dir() -> Seq<u8> {
    seq![DOT, DOT]
}

/// Whether a byte separates names.
pub open spec fn separates(kind: PathKind, byte: u8) -> bool {
    byte == SLASH || (kind == PathKind::Windows && byte == BACKSLASH)
}

/// An ASCII letter in upper case.
pub open spec fn letter(byte: u8) -> Option<u8> {
    if 65 <= byte <= 90 {
        Some(byte)
    } else if 97 <= byte <= 122 {
        Some((byte - 32) as u8)
    } else {
        None
    }
}

/// The letter of the drive that a text starts with, if it starts with one.
pub open spec fn drive_of(kind: PathKind, s: Seq<u8>) -> Option<u8> {
    if kind == PathKind::Windows && s.len() >= 2 && s[1] == COLON {
        letter(s[0])
    } else {
        None
    }
}

/// Whether no name starts with a drive.
pub open spec fn without_drives(kind: PathKind, names: Seq<Seq<u8>>) -> bool {
    forall|i: int| 0 <= i < names.len() ==> drive_of(kind, #[trigger] names[i]) is None
}

/// `s` cut at each separator.
pub open spec fn pieces(kind: PathKind, s: Seq<u8>) -> Seq<Seq<u8>>
    decreases s.len(),
{
    if s.len() == 0 {
        seq![Seq::empty()]
    } else {
        let before = pieces(kind, s.drop_last());
        if separates(kind, s.last()) {
            before.push(Seq::empty())
        } else {
            before.drop_last().push(before.last().push(s.last()))
        }
    }
}

/// The pieces that name something: not the empty ones, and `.` only as the first piece of a
/// path that does not start at the root directory.
pub open spec fn named(list: Seq<Seq<u8>>, rooted: bool) -> Seq<Seq<u8>>
    decreases list.len(),
{
    if list.len() == 0 {
        Seq::empty()
    } else {
        let before = named(list.drop_last(), rooted);
        let piece = list.last();
        if piece.len() == 0 || (piece == current() && (rooted || list.len() > 1)) {
            before
        } else {
            before.push(piece)
        }
    }
}

/// The path that a text without a prefix stands for.
pub open spec fn plain_path_of(kind: PathKind, s: Seq<u8>) -> PathModel {
    let rooted = s.len() > 0 && separates(kind, s[0]);
    PathModel { kind, prefix: None, rooted, names: named(pieces(kind, s), rooted) }
}

/// The path that a text stands for.
///
/// Behind two separators a Windows host looks for a prefix other than a drive. Whether it finds
/// one is not told here: either way the path starts at a root directory.
pub open spec fn path_of(kind: PathKind, s: Seq<u8>) -> PathModel {
    match drive_of(kind, s) {
        Some(drive) => PathModel {
            prefix: Some(seq![drive, COLON]),
            ..plain_path_of(kind, s.skip(2))
        },
        None => plain_path_of(kind, s),
    }
}

impl PathModel {
    /// Only a Windows path has a prefix. Empty names do not occur, and neither does `.`, except
    /// as the first name of a path that does not start at the root directory.
    pub open spec fn wf(self) -> bool {
        &&& self.kind == PathKind::Slash ==> self.prefix is None
        &&& forall|i: int|
            0 <= i < self.names.len() ==> (#[trigger] self.names[i]).len() > 0 && (self.names[i]
                == current() ==> i == 0 && !self.rooted)
    }

    /// The components, one after the other.
    pub open spec fn components(self) -> Seq<Component> {
        let prefix = match self.prefix {
            Some(prefix) => seq![Component::Prefix(prefix)],
            None => Seq::empty(),
        };
        let root = if self.rooted {
            seq![Component::Root]
        } else {
            Seq::empty()
        };
        prefix + root + self.names.map_values(|name: Seq<u8>| Component::Name(name))
    }

    /// Whether the path means the same wherever the host works.
    pub open spec fn is_absolute(self) -> bool {
        self.rooted && (self.kind == PathKind::Windows ==> self.prefix is Some)
    }

    /// The path with more names behind.
    pub open spec fn append(self, names: Seq<Seq<u8>>) -> PathModel {
        PathModel { names: self.names + names, ..self }
    }

    /// The path that leads on from this one along `rel`. One with a prefix stands for itself,
    /// and one that starts at the root directory keeps nothing but the prefix of this one.
    pub open spec fn join(self, rel: PathModel) -> PathModel {
        if rel.prefix is Some {
            rel
        } else if rel.rooted {
            PathModel { rooted: true, names: rel.names, ..self }
        } else {
            self.append(rel.names)
        }
    }

    /// The path that leads on to `name`. A drive in it takes the place of what was before.
    pub open spec fn push_name(self, name: Seq<u8>) -> PathModel {
        if drive_of(self.kind, name) is Some {
            path_of(self.kind, name)
        } else {
            self.append(seq![name])
        }
    }

    /// Whether this path leads through `root`, component by component. Each does through the
    /// empty path.
    pub open spec fn starts_with(self, root: PathModel) -> bool {
        &&& self.kind == root.kind
        &&& root.components().is_prefix_of(self.components())
    }

    /// The path without its last name, if it has one.
    pub open spec fn parent(self) -> Option<PathModel> {
        if self.names.len() == 0 {
            None
        } else {
            Some(PathModel { names: self.names.drop_last(), ..self })
        }
    }

    /// The last name, where it names a file or a directory.
    pub open spec fn file_name(self) -> Option<Seq<u8>> {
        if self.names.len() == 0 || self.names.last() == current() || self.names.last()
            == parent_dir() {
            None
        } else {
            Some(self.names.last())
        }
    }
}

/// The path that a text stands for has the names that occur in a path, whatever the text.
pub proof fn law_parsed_names(kind: PathKind, text: Seq<u8>)
    ensures
        path_of(kind, text).wf(),
{
    let rest = if drive_of(kind, text) is Some {
        text.skip(2)
    } else {
        text
    };
    lemma_named_wf(kind, pieces(kind, rest), path_of(kind, text).rooted);
}

/// The pieces that name something make a path with the names that occur.
proof fn lemma_named_wf(kind: PathKind, list: Seq<Seq<u8>>, rooted: bool)
    ensures
        (PathModel { kind, prefix: None, rooted, names: named(list, rooted) }).wf(),
        named(list, rooted).len() <= list.len(),
    decreases list.len(),
{
    if list.len() > 0 {
        lemma_named_wf(kind, list.drop_last(), rooted);
        let all = PathModel { kind, prefix: None, rooted, names: named(list, rooted) };
        let before = PathModel { names: named(list.drop_last(), rooted), ..all };
        assert forall|i: int| 0 <= i < all.names.len() implies (#[trigger] all.names[i]).len() > 0
            && (all.names[i] == current() ==> i == 0 && !rooted) by {
            if i < before.names.len() {
                assert(all.names[i] == before.names[i]);
            }
        }
    }
}

/// A path leads through itself, and so does what comes of more names.
pub proof fn law_append_starts_with(path: PathModel, names: Seq<Seq<u8>>)
    ensures
        path.append(names).starts_with(path),
        path.starts_with(path),
{
    let all = path.append(names).components();
    let own = path.components();
    assert(own =~= own.subrange(0, own.len() as int));
    assert(own =~= all.subrange(0, own.len() as int));
}

/// What leads through something that leads through a third leads through the third.
pub proof fn law_starts_with_transitive(a: PathModel, b: PathModel, c: PathModel)
    requires
        a.starts_with(b),
        b.starts_with(c),
    ensures
        a.starts_with(c),
{
    let n = c.components().len() as int;
    assert forall|i: int| 0 <= i < n implies c.components()[i] == a.components()[i] by {
        assert(c.components()[i] == b.components().subrange(0, n)[i]);
        assert(b.components()[i] == a.components().subrange(0, b.components().len() as int)[i]);
    }
    assert(c.components() =~= a.components().subrange(0, n));
}

/// Whether `name` is `.`.
pub fn is_current(name: &Vec<u8>) -> (yes: bool)
    ensures
        yes == (name@ == current()),
{
    let yes: bool = name.len() == 1 && name[0] == DOT;
    assert(yes ==> name@ =~= current());
    yes
}

/// Whether `name` is `..`.
pub fn is_parent_dir(name: &Vec<u8>) -> (yes: bool)
    ensures
        yes == (name@ == parent_dir()),
{
    let yes: bool = name.len() == 2 && name[0] == DOT && name[1] == DOT;
    assert(yes ==> name@ =~= parent_dir());
    yes
}

/// A copy of a name.
pub fn copy_name(name: &Vec<u8>) -> (copy: Vec<u8>)
    ensures
        copy@ == name@,
{
    vstd::slice::slice_to_vec(name.as_slice())
}

/// Copies of names, after those in `list`.
pub fn append_names(list: &mut Vec<Vec<u8>>, more: &Vec<Vec<u8>>, n: usize)
    requires
        n <= more@.len(),
    ensures
        memory::byte_seqs(final(list)@) == memory::byte_seqs(old(list)@) + memory::byte_seqs(
            more@,
        ).take(n as int),
{
    let ghost before = memory::byte_seqs(list@);
    let ghost extra = memory::byte_seqs(more@);
    let mut i: usize = 0;
    assert(memory::byte_seqs(list@) =~= before + extra.take(0));
    while i < n
        invariant
            i <= n <= more@.len(),
            extra == memory::byte_seqs(more@),
            memory::byte_seqs(list@) == before + extra.take(i as int),
        decreases n - i,
    {
        let ghost held = memory::byte_seqs(list@);
        list.push(copy_name(&more[i]));
        assert(memory::byte_seqs(list@) =~= held.push(extra[i as int]));
        assert(extra.take(i + 1) =~= extra.take(i as int).push(extra[i as int]));
        assert(before + extra.take(i + 1) =~= (before + extra.take(i as int)).push(
            extra[i as int],
        ));
        i += 1;
    }
}

/// Whether a byte separates names.
fn is_separator(kind: PathKind, byte: u8) -> (yes: bool)
    ensures
        yes == separates(kind, byte),
{
    byte == SLASH || (kind == PathKind::Windows && byte == BACKSLASH)
}

/// The letter of the drive that a text starts with, if it starts with one.
fn drive(kind: PathKind, text: &[u8]) -> (found: Option<u8>)
    ensures
        found == drive_of(kind, text@),
{
    if kind != PathKind::Windows || text.len() < 2 || text[1] != COLON {
        return None;
    }
    let byte: u8 = text[0];
    if 65 <= byte && byte <= 90 {
        Some(byte)
    } else if 97 <= byte && byte <= 122 {
        Some(byte - 32)
    } else {
        None
    }
}

/// The path that a text without a prefix stands for.
fn parse_plain(kind: PathKind, text: &[u8]) -> (path: HostPath)
    ensures
        path@ == plain_path_of(kind, text@),
{
    let rooted: bool = text.len() > 0 && is_separator(kind, text[0]);
    let mut names: Vec<Vec<u8>> = Vec::new();
    let mut cuts: usize = 0;
    let mut start: usize = 0;
    let mut i: usize = 0;
    let ghost mut done: Seq<Seq<u8>> = Seq::empty();
    proof {
        assert(text@.take(0) =~= Seq::<u8>::empty());
        assert(text@.subrange(0, 0) =~= Seq::<u8>::empty());
        assert(pieces(kind, text@.take(0)) =~= done.push(text@.subrange(0, 0)));
        assert(memory::byte_seqs(names@) =~= named(done, rooted));
    }
    while i < text.len()
        invariant
            start <= i <= text@.len(),
            cuts <= i,
            done.len() == cuts,
            pieces(kind, text@.take(i as int)) == done.push(
                text@.subrange(start as int, i as int),
            ),
            memory::byte_seqs(names@) == named(done, rooted),
        decreases text@.len() - i,
    {
        assert(text@.take(i + 1).drop_last() =~= text@.take(i as int));
        let ghost piece = text@.subrange(start as int, i as int);
        if is_separator(kind, text[i]) {
            add_piece(&mut names, text, start, i, rooted, cuts, Ghost(done));
            proof {
                done = done.push(piece);
            }
            cuts += 1;
            start = i + 1;
            assert(text@.subrange(start as int, i + 1) =~= Seq::<u8>::empty());
        } else {
            assert(text@.subrange(start as int, i + 1) =~= piece.push(text@[i as int]));
            assert(done.push(piece).drop_last() =~= done);
        }
        i += 1;
    }
    assert(text@.take(i as int) =~= text@);
    add_piece(&mut names, text, start, i, rooted, cuts, Ghost(done));
    HostPath { kind, prefix: None, rooted, names }
}

/// Whether two prefixes are the same.
fn same_prefix(a: &Option<Vec<u8>>, b: &Option<Vec<u8>>) -> (same: bool)
    ensures
        same == match (a, b) {
            (Some(a), Some(b)) => a@ == b@,
            (None, None) => true,
            _ => false,
        },
{
    match (a, b) {
        (Some(a), Some(b)) => same_bytes(a.as_slice(), b.as_slice()),
        (None, None) => true,
        _ => false,
    }
}

impl HostPath {
    /// The path that a text stands for on a host where only slashes mean anything.
    pub fn parse(text: &[u8]) -> (path: HostPath)
        ensures
            path@ == path_of(PathKind::Slash, text@),
            path@.wf(),
    {
        HostPath::parse_as(PathKind::Slash, text)
    }

    /// The path that a text stands for.
    pub fn parse_as(kind: PathKind, text: &[u8]) -> (path: HostPath)
        ensures
            path@ == path_of(kind, text@),
            path@.wf(),
    {
        proof {
            law_parsed_names(kind, text@);
        }
        match drive(kind, text) {
            Some(letter) => {
                let rest: Vec<u8> = copy_out(text, 2, text.len() - 2);
                assert(rest@ =~= text@.skip(2));
                let mut prefix: Vec<u8> = Vec::new();
                prefix.push(letter);
                prefix.push(COLON);
                assert(prefix@ =~= seq![letter, COLON]);
                let plain = parse_plain(kind, rest.as_slice());
                HostPath { prefix: Some(prefix), ..plain }
            },
            None => parse_plain(kind, text),
        }
    }

    /// A copy of the prefix.
    fn copy_prefix(&self) -> (copy: Option<Vec<u8>>)
        ensures
            match (copy, self@.prefix) {
                (Some(copy), Some(prefix)) => copy@ == prefix,
                (None, None) => true,
                _ => false,
            },
    {
        match &self.prefix {
            Some(prefix) => Some(copy_name(prefix)),
            None => None,
        }
    }

    /// A copy of the path.
    pub fn duplicate(&self) -> (copy: HostPath)
        ensures
            copy@ == self@,
    {
        let mut names: Vec<Vec<u8>> = Vec::new();
        append_names(&mut names, &self.names, self.names.len());
        assert(memory::byte_seqs(names@) =~= memory::byte_seqs(self.names@));
        HostPath { kind: self.kind, prefix: self.copy_prefix(), rooted: self.rooted, names }
    }

    /// Whether the path means the same wherever the host works.
    pub fn is_absolute(&self) -> (yes: bool)
        ensures
            yes == self@.is_absolute(),
    {
        self.rooted && (self.kind != PathKind::Windows || self.prefix.is_some())
    }

    /// The path that leads on along `rel`. One with a prefix stands for itself, and one that
    /// starts at the root directory keeps nothing but the prefix of this one.
    pub fn join(&self, rel: &HostPath) -> (path: HostPath)
        ensures
            path@ == self@.join(rel@),
            self@.wf() && rel@.wf() && (rel@.prefix is None && !rel@.rooted
                ==> !rel@.names.contains(current())) ==> path@.wf(),
    {
        if rel.prefix.is_some() {
            return rel.duplicate();
        }
        let mut names: Vec<Vec<u8>> = Vec::new();
        if !rel.rooted {
            append_names(&mut names, &self.names, self.names.len());
        }
        let ghost held = memory::byte_seqs(names@);
        append_names(&mut names, &rel.names, rel.names.len());
        proof {
            if rel.rooted {
                assert(memory::byte_seqs(names@) =~= rel@.names);
            } else {
                assert(held =~= self@.names);
                assert(memory::byte_seqs(names@) =~= self@.names + rel@.names);
            }
        }
        HostPath {
            kind: self.kind,
            prefix: self.copy_prefix(),
            rooted: self.rooted || rel.rooted,
            names,
        }
    }

    /// The path that leads on to `name`. A drive in it takes the place of what was before.
    pub fn join_name(&self, name: Vec<u8>) -> (path: HostPath)
        ensures
            path@ == self@.push_name(name@),
            self@.wf() && name@.len() > 0 && name@ != current() ==> path@.wf(),
    {
        if drive(self.kind, name.as_slice()).is_some() {
            return HostPath::parse_as(self.kind, name.as_slice());
        }
        let mut path = self.duplicate();
        let ghost before = path@.names;
        path.names.push(name);
        assert(path@.names =~= before + seq![name@]);
        path
    }

    /// Whether the path leads through `root`, component by component. Each does through the
    /// empty path.
    pub fn starts_with(&self, root: &HostPath) -> (yes: bool)
        ensures
            yes == self@.starts_with(root@),
    {
        if self.kind != root.kind {
            return false;
        }
        proof {
            lemma_components(self@);
            lemma_components(root@);
        }
        let ghost all = self@.components();
        let ghost front = root@.components();
        if root.prefix.is_none() && !root.rooted && root.names.len() == 0 {
            assert(front =~= all.subrange(0, 0));
            return true;
        }
        if !same_prefix(&self.prefix, &root.prefix) {
            assert(front.len() > 0);
            assert(front.is_prefix_of(all) ==> front[0] == all.subrange(0, front.len() as int)[0]);
            return false;
        }
        let ghost at: int = if self.prefix is Some {
            1
        } else {
            0
        };
        if !root.rooted && root.names.len() == 0 {
            assert(front =~= all.subrange(0, front.len() as int));
            return true;
        }
        if self.rooted != root.rooted {
            assert(front.len() > at);
            assert(front.is_prefix_of(all) ==> front[at] == all.subrange(
                0,
                front.len() as int,
            )[at]);
            return false;
        }
        if root.names.len() > self.names.len() {
            assert(front.len() > all.len());
            return false;
        }
        let ghost base: int = front.len() - root@.names.len();
        let mut i: usize = 0;
        while i < root.names.len()
            invariant
                i <= root.names@.len() <= self.names@.len(),
                all == self@.components(),
                front == root@.components(),
                base == front.len() - root@.names.len(),
                base == all.len() - self@.names.len(),
                0 <= base,
                forall|j: int|
                    0 <= j < root@.names.len() ==> #[trigger] front[base + j] == Component::Name(
                        root@.names[j],
                    ),
                forall|j: int|
                    0 <= j < self@.names.len() ==> #[trigger] all[base + j] == Component::Name(
                        self@.names[j],
                    ),
                forall|j: int| 0 <= j < i ==> self@.names[j] == root@.names[j],
            decreases root.names@.len() - i,
        {
            if !same_bytes(self.names[i].as_slice(), root.names[i].as_slice()) {
                assert(front[base + i] != all[base + i]);
                assert(front.is_prefix_of(all) ==> front[base + i] == all.subrange(
                    0,
                    front.len() as int,
                )[base + i]);
                return false;
            }
            i += 1;
        }
        proof {
            assert forall|j: int| 0 <= j < front.len() implies front[j] == all[j] by {
                if j >= base {
                    assert(front[base + (j - base)] == Component::Name(root@.names[j - base]));
                    assert(all[base + (j - base)] == Component::Name(self@.names[j - base]));
                }
            }
            assert(front =~= all.subrange(0, front.len() as int));
        }
        true
    }

    /// The path without its last name, if it has one.
    pub fn parent(&self) -> (path: Option<HostPath>)
        ensures
            path is Some == self@.parent() is Some,
            path matches Some(path) ==> self@.parent() == Some(path@),
            path matches Some(path) ==> self@.wf() ==> path@.wf(),
    {
        if self.names.len() == 0 {
            return None;
        }
        let mut names: Vec<Vec<u8>> = Vec::new();
        append_names(&mut names, &self.names, self.names.len() - 1);
        assert(memory::byte_seqs(names@) =~= self@.names.drop_last());
        Some(HostPath { kind: self.kind, prefix: self.copy_prefix(), rooted: self.rooted, names })
    }

    /// The last name, where it names a file or a directory.
    pub fn file_name(&self) -> (name: Option<Vec<u8>>)
        ensures
            name is Some == self@.file_name() is Some,
            name matches Some(name) ==> self@.file_name() == Some(name@),
    {
        if self.names.len() == 0 {
            return None;
        }
        let last = &self.names[self.names.len() - 1];
        if is_current(last) || is_parent_dir(last) {
            return None;
        }
        Some(copy_name(last))
    }
}

/// Where the components of a path stand.
proof fn lemma_components(path: PathModel)
    ensures
        ({
            let all = path.components();
            let base = all.len() - path.names.len();
            let prefixes: int = if path.prefix is Some {
                1
            } else {
                0
            };
            let roots: int = if path.rooted {
                1
            } else {
                0
            };
            &&& base == prefixes + roots
            &&& path.prefix matches Some(prefix) ==> all[0] == Component::Prefix(prefix)
            &&& path.rooted ==> all[base - 1] == Component::Root
            &&& forall|j: int|
                0 <= j < path.names.len() ==> #[trigger] all[base + j] == Component::Name(
                    path.names[j],
                )
        }),
{
}

/// Adds the piece `text[start..end]` to the names where it names something.
fn add_piece(
    names: &mut Vec<Vec<u8>>,
    text: &[u8],
    start: usize,
    end: usize,
    rooted: bool,
    before: usize,
    Ghost(done): Ghost<Seq<Seq<u8>>>,
)
    requires
        start <= end <= text@.len(),
        done.len() == before,
        memory::byte_seqs(old(names)@) == named(done, rooted),
    ensures
        memory::byte_seqs(final(names)@) == named(
            done.push(text@.subrange(start as int, end as int)),
            rooted,
        ),
{
    let piece = copy_out(text, start, end - start);
    let ghost held = memory::byte_seqs(names@);
    assert(done.push(piece@).drop_last() =~= done);
    if piece.len() > 0 && !(is_current(&piece) && (rooted || before > 0)) {
        names.push(piece);
        assert(memory::byte_seqs(names@) =~= held.push(piece@));
    }
}

/// Which bytes separate names: a slash, and on Windows a backslash, too.
pub proof fn law_separators(byte: u8)
    ensures
        separates(PathKind::Slash, byte) == (byte == 0x2f),
        separates(PathKind::Windows, byte) == (byte == 0x2f || byte == 0x5c),
        current() == seq![0x2eu8],
        parent_dir() == seq![0x2eu8, 0x2eu8],
{
}

/// A drive is a letter, in either case, and a colon at the front of a Windows path.
pub proof fn law_drives(s: Seq<u8>)
    ensures
        drive_of(PathKind::Slash, s) is None,
        drive_of(PathKind::Windows, s) is Some <==> s.len() >= 2 && s[1] == 0x3a && (0x41 <= s[0]
            <= 0x5a || 0x61 <= s[0] <= 0x7a),
        drive_of(PathKind::Windows, s) matches Some(letter) ==> 0x41 <= letter <= 0x5a && (s[0]
            == letter || s[0] == letter + 32),
{
}

/// A text without a separator is one piece.
pub proof fn law_piece_without_separator(kind: PathKind, s: Seq<u8>)
    requires
        forall|i: int| 0 <= i < s.len() ==> !separates(kind, #[trigger] s[i]),
    ensures
        pieces(kind, s) == seq![s],
    decreases s.len(),
{
    if s.len() > 0 {
        let shorter = s.drop_last();
        assert forall|i: int| 0 <= i < shorter.len() implies !separates(
            kind,
            #[trigger] shorter[i],
        ) by {
            assert(shorter[i] == s[i]);
        }
        law_piece_without_separator(kind, shorter);
        assert(s[s.len() - 1] == s.last());
        assert(shorter.push(s.last()) =~= s);
        assert(seq![shorter].drop_last().push(s) =~= seq![s]);
    } else {
        assert(s =~= Seq::<u8>::empty());
    }
}

/// At a separator a text falls into the pieces before it and those behind it.
pub proof fn law_pieces_are_cut_at_separators(
    kind: PathKind,
    before: Seq<u8>,
    separator: u8,
    behind: Seq<u8>,
)
    requires
        separates(kind, separator),
    ensures
        pieces(kind, before.push(separator) + behind) == pieces(kind, before) + pieces(
            kind,
            behind,
        ),
    decreases behind.len(),
{
    let all = before.push(separator) + behind;
    lemma_pieces_not_empty(kind, behind);
    if behind.len() == 0 {
        assert(all =~= before.push(separator));
        assert(all.drop_last() =~= before);
        assert(pieces(kind, before).push(Seq::empty()) =~= pieces(kind, before) + pieces(
            kind,
            behind,
        ));
    } else {
        let shorter = behind.drop_last();
        law_pieces_are_cut_at_separators(kind, before, separator, shorter);
        lemma_pieces_not_empty(kind, shorter);
        assert(all.drop_last() =~= before.push(separator) + shorter);
        let inner = pieces(kind, before) + pieces(kind, shorter);
        assert(inner.last() == pieces(kind, shorter).last());
        assert(pieces(kind, all) =~= pieces(kind, before) + pieces(kind, behind));
    }
}

/// There is at least one piece.
proof fn lemma_pieces_not_empty(kind: PathKind, s: Seq<u8>)
    ensures
        pieces(kind, s).len() > 0,
    decreases s.len(),
{
    if s.len() > 0 {
        lemma_pieces_not_empty(kind, s.drop_last());
    }
}

/// Whether a piece leads somewhere: it is neither empty nor `.`.
pub open spec fn leads_on(piece: Seq<u8>) -> bool {
    piece.len() > 0 && piece != seq![0x2eu8]
}

/// The names of a path are the pieces that lead somewhere, in their order, and a `.` at the very
/// front of a path that does not start at the root directory.
pub proof fn law_named_pieces(list: Seq<Seq<u8>>, rooted: bool)
    ensures
        named(list, rooted) == (if !rooted && list.len() > 0 && list[0] == seq![0x2eu8] {
            seq![list[0]] + list.filter(|piece: Seq<u8>| leads_on(piece))
        } else {
            list.filter(|piece: Seq<u8>| leads_on(piece))
        }),
    decreases list.len(),
{
    let keep = |piece: Seq<u8>| leads_on(piece);
    reveal(Seq::filter);
    if list.len() > 0 {
        let fewer = list.drop_last();
        law_named_pieces(fewer, rooted);
        if fewer.len() > 0 {
            assert(fewer[0] == list[0]);
            assert(named(list, rooted) =~= if !rooted && list[0] == seq![0x2eu8] {
                seq![list[0]] + list.filter(keep)
            } else {
                list.filter(keep)
            });
        } else {
            assert(list.last() == list[0]);
            assert(named(fewer, rooted) =~= Seq::<Seq<u8>>::empty());
            assert(fewer.filter(keep) =~= Seq::<Seq<u8>>::empty());
            assert(named(list, rooted) =~= if !rooted && list[0] == seq![0x2eu8] {
                seq![list[0]] + list.filter(keep)
            } else {
                list.filter(keep)
            });
        }
    } else {
        assert(named(list, rooted) =~= list.filter(keep));
    }
}

/// A text stands for a path of its kind, with a prefix exactly if it starts with a drive, that
/// starts at the root directory exactly if a separator comes first, and whose names are pieces of
/// the text.
pub proof fn law_parsed_paths(kind: PathKind, s: Seq<u8>)
    ensures
        path_of(kind, s).kind == kind,
        drive_of(kind, s) is None ==> {
            let path = path_of(kind, s);
            &&& path.prefix is None
            &&& path.rooted == (s.len() > 0 && separates(kind, s[0]))
            &&& path.names == named(pieces(kind, s), path.rooted)
        },
        drive_of(kind, s) matches Some(letter) ==> {
            let path = path_of(kind, s);
            &&& path.prefix == Some(seq![letter, 0x3au8])
            &&& path.rooted == (s.len() > 2 && separates(kind, s[2]))
            &&& path.names == named(pieces(kind, s.skip(2)), path.rooted)
        },
{
}

/// A path lies under one that is not empty exactly if both have the same prefix and start at the
/// same place, and the names of the first begin with those of the second.
pub proof fn law_starts_with_means_prefix(path: PathModel, root: PathModel)
    requires
        root.rooted || root.names.len() > 0,
    ensures
        path.starts_with(root) <==> path.kind == root.kind && path.prefix == root.prefix
            && path.rooted == root.rooted && root.names.is_prefix_of(path.names),
{
    lemma_components(path);
    lemma_components(root);
    let all = path.components();
    let front = root.components();
    let n = front.len() as int;
    if path.starts_with(root) {
        assert forall|i: int| 0 <= i < n implies front[i] == all[i] by {
            assert(front[i] == all.subrange(0, n)[i]);
        }
        let base = front.len() - root.names.len();
        if path.prefix is Some || root.prefix is Some {
            assert(front[0] == all[0]);
        }
        if root.rooted || path.rooted {
            assert(path.prefix == root.prefix);
            let at: int = if root.prefix is Some {
                1
            } else {
                0
            };
            assert(front[at] == all[at]);
        }
        assert(path.rooted == root.rooted);
        assert forall|j: int| 0 <= j < root.names.len() implies root.names[j] == path.names[j] by {
            assert(front[base + j] == all[base + j]);
            assert(front[base + j] == Component::Name(root.names[j]));
            assert(all[base + j] == Component::Name(path.names[j]));
        }
        assert(root.names =~= path.names.subrange(0, root.names.len() as int));
    }
    if path.kind == root.kind && path.prefix == root.prefix && path.rooted == root.rooted
        && root.names.is_prefix_of(path.names) {
        let rest = path.names.skip(root.names.len() as int);
        assert(path.names =~= root.names + rest);
        assert(path =~= root.append(rest));
        law_append_starts_with(root, rest);
    }
}

/// Every path of the same kind lies under the empty path.
pub proof fn law_everything_starts_with_nothing(path: PathModel, root: PathModel)
    requires
        root.kind == path.kind,
        root.prefix is None,
        !root.rooted,
        root.names.len() == 0,
    ensures
        path.starts_with(root),
{
    assert(root.components() =~= path.components().subrange(0, 0));
}

/// Where only slashes mean anything, a path that starts at the root directory is absolute. On
/// Windows it has to have a prefix, too.
pub proof fn law_absolute_paths(path: PathModel)
    ensures
        path.kind == PathKind::Slash ==> path.is_absolute() == path.rooted,
        path.kind == PathKind::Windows ==> path.is_absolute() == (path.rooted && path.prefix is
            Some),
{
}

/// Joining puts the names of a relative path behind those of another one, and gives any other path
/// its own place.
pub proof fn law_joined_paths(path: PathModel, rel: PathModel)
    ensures
        rel.prefix is None && !rel.rooted ==> path.join(rel).names == path.names + rel.names
            && path.join(rel).prefix == path.prefix && path.join(rel).rooted == path.rooted
            && path.join(rel).kind == path.kind,
        rel.prefix is None && rel.rooted ==> path.join(rel).names == rel.names && path.join(
            rel,
        ).prefix == path.prefix && path.join(rel).rooted && path.join(rel).kind == path.kind,
        rel.prefix is Some ==> path.join(rel) == rel,
{
}

/// A name without a drive is put behind the others; it is then the last name of the path, and what
/// is left without it is the path as it was.
pub proof fn law_last_name(path: PathModel, name: Seq<u8>)
    requires
        drive_of(path.kind, name) is None,
    ensures
        path.push_name(name).names == path.names.push(name),
        path.push_name(name).prefix == path.prefix,
        path.push_name(name).rooted == path.rooted,
        path.push_name(name).kind == path.kind,
        path.push_name(name).parent() == Some(path),
        path.push_name(name).file_name() == (if name == seq![0x2eu8] || name == seq![
            0x2eu8,
            0x2eu8,
        ] {
            None::<Seq<u8>>
        } else {
            Some(name)
        }),
{
    assert(path.names + seq![name] =~= path.names.push(name));
    assert(path.names.push(name).drop_last() =~= path.names);
}

/// A path without names has neither a last name nor a directory above it.
pub proof fn law_no_last_name(path: PathModel)
    requires
        path.names.len() == 0,
    ensures
        path.parent() is None,
        path.file_name() is None,
{
}

/// What a path says is what its parts hold.
pub proof fn law_parts_of_paths(path: &HostPath)
    ensures
        path@.kind == path.kind,
        path@.rooted == path.rooted,
        path.prefix matches Some(prefix) ==> path@.prefix == Some(prefix@),
        path.prefix is None ==> path@.prefix is None,
        path@.names.len() == path.names@.len(),
        forall|i: int|
            0 <= i < path.names@.len() ==> (#[trigger] path@.names[i]) == path.names@[i]@,
{
}

/// A name with a drive takes the place of the whole path.
pub proof fn law_names_with_a_drive(path: PathModel, name: Seq<u8>)
    requires
        drive_of(path.kind, name) is Some,
    ensures
        path.push_name(name) == path_of(path.kind, name),
{
}

/// Paths of two kinds do not lie under each other, and under a drive lies what has the same drive.
pub proof fn law_what_lies_under_a_drive(path: PathModel, root: PathModel)
    ensures
        path.kind != root.kind ==> !path.starts_with(root),
        path.kind == root.kind && root.prefix is Some && !root.rooted && root.names.len() == 0 ==> (
        path.starts_with(root) <==> path.prefix == root.prefix),
{
    if path.kind == root.kind && root.prefix is Some && !root.rooted && root.names.len() == 0 {
        lemma_components(path);
        lemma_components(root);
        let all = path.components();
        let front = root.components();
        assert(front.len() == 1);
        if path.starts_with(root) {
            assert(front[0] == all.subrange(0, 1)[0]);
            if path.prefix is None {
                if path.rooted {
                    assert(all[0] == Component::Root);
                } else {
                    assert(all[0] == Component::Name(path.names[0]));
                }
            }
        }
        if path.prefix == root.prefix {
            assert(front =~= all.subrange(0, 1));
        }
    }
}

/// The directory above a path has all names but the last one; the last one is that of a file or a
/// directory unless it is `.` or `..`.
pub proof fn law_directory_above(path: PathModel)
    requires
        path.names.len() > 0,
    ensures
        path.parent() is Some,
        path.parent()->Some_0.names == path.names.drop_last(),
        path.parent()->Some_0.kind == path.kind,
        path.parent()->Some_0.prefix == path.prefix,
        path.parent()->Some_0.rooted == path.rooted,
        path.file_name() == (if path.names.last() == seq![0x2eu8] || path.names.last() == seq![
            0x2eu8,
            0x2eu8,
        ] {
            None::<Seq<u8>>
        } else {
            Some(path.names.last())
        }),
{
}

} // verus!
