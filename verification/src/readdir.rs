//! Listing a directory, page by page.
use crate::errno;
use crate::errno::{io_error_to_errno, IoErrorKind};
use crate::files;
use crate::files::std_filetype_to_wasi;
use crate::memory;
use crate::memory::{copy_into, u32_le_bytes, u64_le_bytes};
use crate::order;
use crate::order::bytes_before;
use crate::text;
use crate::text::from_utf8_lossy;
use crate::wasi_ctx::WasiProcMacroCtx;
use vstd::prelude::*;
use vstd::string::StrSliceExecFns;

verus! {

/// An entry of a directory, as the host tells it.
#[derive(Debug)]
pub struct HostDirEntry {
    pub name: Vec<u8>,
    pub is_symlink: bool,
    pub is_dir: bool,
    pub is_file: bool,
}

/// An entry of a directory, as the guest is told.
#[derive(Debug)]
pub struct Dirent {
    pub name: Vec<u8>,
    pub filetype: u8,
}

/// What an entry of a directory says.
pub struct DirentModel {
    pub name: Seq<u8>,
    pub filetype: u8,
}

impl View for Dirent {
    type V = DirentModel;

    open spec fn view(&self) -> DirentModel {
        DirentModel { name: self.name@, filetype: self.filetype }
    }
}

/// What a list of entries says.
pub open spec fn models(list: Seq<Dirent>) -> Seq<DirentModel> {
    Seq::new(list.len(), |i: int| list[i]@)
}

/// What the guest is told of an entry. Its name is made UTF-8.
pub open spec fn told(entry: HostDirEntry) -> DirentModel {
    DirentModel {
        name: vstd::utf8::encode_utf8(text::utf8_lossy(entry.name@)),
        filetype: files::wasi_filetype(entry.is_symlink, entry.is_dir, entry.is_file),
    }
}

/// `list` with an entry after all those whose names do not come after its name. `list` is in
/// the order of the names.
pub open spec fn insert_sorted(list: Seq<DirentModel>, entry: DirentModel) -> Seq<DirentModel>
    decreases list.len(),
{
    if list.len() > 0 && order::bytes_lt(entry.name, list.last().name) {
        insert_sorted(list.drop_last(), entry).push(list.last())
    } else {
        list.push(entry)
    }
}

/// The entries in the order of their names; those of one name stay in the order in which they
/// were.
pub open spec fn sort_entries(list: Seq<DirentModel>) -> Seq<DirentModel>
    decreases list.len(),
{
    if list.len() == 0 {
        Seq::empty()
    } else {
        insert_sorted(sort_entries(list.drop_last()), list.last())
    }
}

/// Whether no entry's name comes before the name of an earlier one.
pub open spec fn in_order(list: Seq<DirentModel>) -> bool {
    forall|i: int, j: int|
        0 <= i < j < list.len() ==> !order::bytes_lt(
            (#[trigger] list[j]).name,
            (#[trigger] list[i]).name,
        )
}

/// The length of what stands before the name in an entry.
pub const HEADER_LEN: usize = 24;

/// What stands before the name in an entry: the cookie of the next entry, no inode, the length
/// of the name, the kind of file.
pub open spec fn header(entry: DirentModel, next_cookie: u64) -> Seq<u8> {
    memory::le_bytes(next_cookie as nat, 8) + memory::le_bytes(0, 8) + memory::le_bytes(
        (entry.name.len() as usize as u32) as nat,
        4,
    ) + seq![entry.filetype, 0u8, 0u8, 0u8]
}

/// An entry as it stands in a page.
pub open spec fn dirent_bytes(entry: DirentModel, next_cookie: u64) -> Seq<u8> {
    header(entry, next_cookie) + entry.name
}

/// The entries from `from` on, one after the other.
pub open spec fn stream(entries: Seq<DirentModel>, from: nat) -> Seq<u8>
    decreases entries.len() - from,
{
    if from >= entries.len() {
        Seq::empty()
    } else {
        dirent_bytes(entries[from as int], (from + 1) as u64) + stream(entries, from + 1)
    }
}

/// What a page with room for `room` bytes holds of the entries from `from` on: whole entries,
/// and of the next one its header and what there is room for of its name. An entry whose header
/// does not fit is left out.
pub open spec fn page(entries: Seq<DirentModel>, from: nat, room: nat) -> Seq<u8>
    decreases entries.len() - from,
{
    if from >= entries.len() || room < HEADER_LEN {
        Seq::empty()
    } else {
        let bytes = dirent_bytes(entries[from as int], (from + 1) as u64);
        if bytes.len() > room {
            bytes.take(room as int)
        } else {
            bytes + page(entries, from + 1, (room - bytes.len()) as nat)
        }
    }
}

/// How many whole entries a page with room for `room` bytes holds.
pub open spec fn whole_entries(entries: Seq<DirentModel>, from: nat, room: nat) -> nat
    decreases entries.len() - from,
{
    if from >= entries.len() {
        0
    } else {
        let bytes = dirent_bytes(entries[from as int], (from + 1) as u64);
        if bytes.len() > room {
            0
        } else {
            1 + whole_entries(entries, from + 1, (room - bytes.len()) as nat)
        }
    }
}

/// How much of a page the guest is told to be used: all of it, unless all entries fit.
pub open spec fn page_used(entries: Seq<DirentModel>, from: nat, room: nat) -> nat {
    if stream(entries, from).len() < room {
        stream(entries, from).len()
    } else {
        room
    }
}

/// A header has its length.
proof fn lemma_header_len(entry: DirentModel, next_cookie: u64)
    ensures
        header(entry, next_cookie).len() == HEADER_LEN,
{
    memory::lemma_le_bytes_len(next_cookie as nat, 8);
    memory::lemma_le_bytes_len(0, 8);
    memory::lemma_le_bytes_len((entry.name.len() as usize as u32) as nat, 4);
}

/// A page is what the stream of all entries starts with, no longer than its room.
pub proof fn law_page_is_prefix(entries: Seq<DirentModel>, from: nat, room: nat)
    ensures
        page(entries, from, room).len() <= room,
        page(entries, from, room).len() <= stream(entries, from).len(),
        page(entries, from, room) == stream(entries, from).take(
            page(entries, from, room).len() as int,
        ),
        room - page(entries, from, room).len() >= HEADER_LEN ==> page(entries, from, room)
            == stream(entries, from),
    decreases entries.len() - from,
{
    if from < entries.len() && room >= HEADER_LEN {
        let bytes = dirent_bytes(entries[from as int], (from + 1) as u64);
        let rest = stream(entries, from + 1);
        if bytes.len() > room {
            assert(bytes.take(room as int) =~= (bytes + rest).take(room as int));
        } else {
            let room1 = (room - bytes.len()) as nat;
            law_page_is_prefix(entries, from + 1, room1);
            let tail = page(entries, from + 1, room1);
            assert(bytes + tail =~= (bytes + rest).take((bytes.len() + tail.len()) as int));
        }
    } else {
        assert(page(entries, from, room) =~= stream(entries, from).take(0));
    }
}

/// A page is said to be used only in part exactly where nothing is left to list after it, and
/// it then holds all entries.
pub proof fn law_short_page_is_last(entries: Seq<DirentModel>, from: nat, room: nat)
    ensures
        page_used(entries, from, room) < room ==> page(entries, from, room) == stream(entries, from)
            && from + whole_entries(entries, from, room) >= entries.len(),
        from + whole_entries(entries, from, room) < entries.len() ==> page_used(
            entries,
            from,
            room,
        ) == room,
    decreases entries.len() - from,
{
    if from < entries.len() {
        let entry = entries[from as int];
        let bytes = dirent_bytes(entry, (from + 1) as u64);
        lemma_header_len(entry, (from + 1) as u64);
        if bytes.len() <= room {
            law_short_page_is_last(entries, from + 1, (room - bytes.len()) as nat);
        }
    }
}

/// Listing goes on without a gap: the whole entries of a page, followed by what is listed from
/// the cookie of the last one on, are what was to be listed.
pub proof fn law_pages_continue(entries: Seq<DirentModel>, from: nat, room: nat)
    ensures
        ({
            let next = from + whole_entries(entries, from, room);
            let whole = stream(entries, from).len() - stream(entries, next).len();
            &&& 0 <= whole <= page(entries, from, room).len()
            &&& stream(entries, from) == page(entries, from, room).take(whole) + stream(
                entries,
                next,
            )
        }),
    decreases entries.len() - from,
{
    let next = from + whole_entries(entries, from, room);
    let here = page(entries, from, room);
    if from < entries.len() {
        let entry = entries[from as int];
        let bytes = dirent_bytes(entry, (from + 1) as u64);
        lemma_header_len(entry, (from + 1) as u64);
        if bytes.len() <= room {
            let room1 = (room - bytes.len()) as nat;
            law_pages_continue(entries, from + 1, room1);
            let tail = page(entries, from + 1, room1);
            let whole1 = stream(entries, from + 1).len() - stream(entries, next).len();
            assert(here == bytes + tail);
            assert(here.take(bytes.len() + whole1) =~= bytes + tail.take(whole1));
            assert(stream(entries, from) =~= here.take(bytes.len() + whole1) + stream(
                entries,
                next,
            ));
        } else {
            assert(stream(entries, from) =~= here.take(0) + stream(entries, next));
        }
    } else {
        assert(stream(entries, from) =~= here.take(0) + stream(entries, next));
    }
}

/// Where there is room for the first entry, a page holds at least one whole entry.
pub proof fn law_pages_advance(entries: Seq<DirentModel>, from: nat, room: nat)
    requires
        from < entries.len(),
        HEADER_LEN + entries[from as int].name.len() <= room,
    ensures
        whole_entries(entries, from, room) > 0,
{
    lemma_header_len(entries[from as int], (from + 1) as u64);
}

/// What insertion keeps.
proof fn lemma_insert_sorted(list: Seq<DirentModel>, entry: DirentModel)
    requires
        in_order(list),
    ensures
        in_order(insert_sorted(list, entry)),
        insert_sorted(list, entry).len() == list.len() + 1,
        insert_sorted(list, entry).to_multiset() == list.to_multiset().insert(entry),
        forall|i: int|
            0 <= i <= list.len() ==> (#[trigger] insert_sorted(list, entry)[i]) == entry || (exists|
                j: int,
            | 0 <= j < list.len() && insert_sorted(list, entry)[i] == #[trigger] list[j]),
    decreases list.len(),
{
    broadcast use vstd::seq_lib::group_to_multiset_ensures;

    let out = insert_sorted(list, entry);
    if list.len() > 0 && order::bytes_lt(entry.name, list.last().name) {
        let shorter = list.drop_last();
        lemma_insert_sorted(shorter, entry);
        let inner = insert_sorted(shorter, entry);
        assert(list =~= shorter.push(list.last()));
        assert forall|i: int| 0 <= i <= list.len() implies (#[trigger] out[i]) == entry || (exists|
            j: int,
        | 0 <= j < list.len() && out[i] == #[trigger] list[j]) by {
            if i < list.len() {
                assert(out[i] == inner[i]);
                if inner[i] != entry {
                    let j = choose|j: int|
                        0 <= j < shorter.len() && inner[i] == #[trigger] shorter[j];
                    assert(list[j] == shorter[j]);
                }
            } else {
                assert(out[i] == list[list.len() - 1]);
            }
        }
        assert forall|i: int, j: int| 0 <= i < j < out.len() implies !order::bytes_lt(
            (#[trigger] out[j]).name,
            (#[trigger] out[i]).name,
        ) by {
            if j < out.len() - 1 {
                assert(out[i] == inner[i] && out[j] == inner[j]);
            } else {
                assert(out[j] == list.last());
                if out[i] == entry {
                    if order::bytes_lt(out[j].name, out[i].name) {
                        order::lemma_bytes_lt_transitive(entry.name, out[j].name, entry.name);
                        order::lemma_bytes_lt_irreflexive(entry.name);
                    }
                } else {
                    assert(out[i] == inner[i]);
                    let k = choose|k: int|
                        0 <= k < shorter.len() && inner[i] == #[trigger] shorter[k];
                    assert(list[k] == shorter[k]);
                }
            }
        }
    } else {
        assert forall|i: int, j: int| 0 <= i < j < out.len() implies !order::bytes_lt(
            (#[trigger] out[j]).name,
            (#[trigger] out[i]).name,
        ) by {
            if j == list.len() {
                let last = list.last();
                assert(out[i] == list[i]);
                assert(i == list.len() - 1 || !order::bytes_lt(
                    list[list.len() - 1].name,
                    list[i].name,
                ));
                if order::bytes_lt(entry.name, list[i].name) {
                    order::lemma_bytes_lt_total(last.name, list[i].name);
                    if last.name != list[i].name {
                        order::lemma_bytes_lt_transitive(entry.name, list[i].name, last.name);
                    }
                }
            } else {
                assert(out[i] == list[i] && out[j] == list[j]);
            }
        }
        assert forall|i: int| 0 <= i <= list.len() implies (#[trigger] out[i]) == entry || (exists|
            j: int,
        | 0 <= j < list.len() && out[i] == #[trigger] list[j]) by {
            if i < list.len() {
                assert(out[i] == list[i]);
            }
        }
    }
}

/// Sorting puts the names in order and neither loses nor adds an entry.
pub proof fn law_sort_orders_entries(list: Seq<DirentModel>)
    ensures
        in_order(sort_entries(list)),
        sort_entries(list).to_multiset() == list.to_multiset(),
        sort_entries(list).len() == list.len(),
    decreases list.len(),
{
    broadcast use vstd::seq_lib::group_to_multiset_ensures;

    if list.len() > 0 {
        law_sort_orders_entries(list.drop_last());
        lemma_insert_sorted(sort_entries(list.drop_last()), list.last());
        assert(list =~= list.drop_last().push(list.last()));
    } else {
        assert(sort_entries(list) =~= list);
    }
}

/// The entries of one name, in the order in which they are.
pub open spec fn of_name(list: Seq<DirentModel>, name: Seq<u8>) -> Seq<DirentModel>
    decreases list.len(),
{
    if list.len() == 0 {
        Seq::empty()
    } else if list.last().name == name {
        of_name(list.drop_last(), name).push(list.last())
    } else {
        of_name(list.drop_last(), name)
    }
}

/// What insertion does to the entries of one name.
proof fn lemma_insert_sorted_of_name(list: Seq<DirentModel>, entry: DirentModel, name: Seq<u8>)
    ensures
        of_name(insert_sorted(list, entry), name) == of_name(list.push(entry), name),
    decreases list.len(),
{
    reveal_with_fuel(of_name, 3);
    assert(list.push(entry).drop_last() =~= list);
    if list.len() > 0 && order::bytes_lt(entry.name, list.last().name) {
        let shorter = list.drop_last();
        lemma_insert_sorted_of_name(shorter, entry, name);
        order::lemma_bytes_lt_irreflexive(entry.name);
        assert(insert_sorted(list, entry).drop_last() =~= insert_sorted(shorter, entry));
        assert(shorter.push(entry).drop_last() =~= shorter);
    }
}

/// Sorting leaves the entries of one name in the order in which they were.
pub proof fn law_sort_is_stable(list: Seq<DirentModel>, name: Seq<u8>)
    ensures
        of_name(sort_entries(list), name) == of_name(list, name),
    decreases list.len(),
{
    if list.len() > 0 {
        let sorted = sort_entries(list.drop_last());
        law_sort_is_stable(list.drop_last(), name);
        lemma_insert_sorted_of_name(sorted, list.last(), name);
        assert(sorted.push(list.last()).drop_last() =~= sorted);
    }
}

/// The entries of a directory, as the guest is told, in the order of their names.
fn guest_entries(listing: &Vec<HostDirEntry>) -> (entries: Vec<Dirent>)
    ensures
        models(entries@) == sort_entries(told_list(listing@)),
{
    let mut entries: Vec<Dirent> = Vec::new();
    let ghost all = told_list(listing@);
    let mut i: usize = 0;
    assert(models(entries@) =~= sort_entries(all.take(0)));
    while i < listing.len()
        invariant
            i <= listing@.len(),
            all == told_list(listing@),
            models(entries@) == sort_entries(all.take(i as int)),
        decreases listing@.len() - i,
    {
        let host: &HostDirEntry = &listing[i];
        let name: Vec<u8> = from_utf8_lossy(host.name.as_slice()).as_str().as_bytes_vec();
        let filetype: u8 = std_filetype_to_wasi(host.is_symlink, host.is_dir, host.is_file);
        insert_dirent(&mut entries, Dirent { name, filetype });
        proof {
            assert(all.take(i + 1).drop_last() =~= all.take(i as int));
            assert(all.take(i + 1).last() == told(listing@[i as int]));
        }
        i += 1;
    }
    assert(all.take(i as int) =~= all);
    entries
}

/// What the guest is told of the entries of a directory.
pub open spec fn told_list(listing: Seq<HostDirEntry>) -> Seq<DirentModel> {
    Seq::new(listing.len(), |i: int| told(listing[i]))
}

/// Puts an entry after all those whose names do not come after its name.
fn insert_dirent(entries: &mut Vec<Dirent>, entry: Dirent)
    ensures
        models(final(entries)@) == insert_sorted(models(old(entries)@), entry@),
{
    let ghost before = models(entries@);
    let mut at: usize = entries.len();
    proof {
        assert(before.take(at as int) =~= before);
        assert(before.skip(at as int) =~= Seq::<DirentModel>::empty());
        assert(insert_sorted(before, entry@) =~= insert_sorted(before.take(at as int), entry@)
            + before.skip(at as int));
    }
    while at > 0 && bytes_before(entry.name.as_slice(), entries[at - 1].name.as_slice())
        invariant
            at <= entries@.len(),
            before == models(entries@),
            insert_sorted(before, entry@) == insert_sorted(before.take(at as int), entry@)
                + before.skip(at as int),
        decreases at,
    {
        proof {
            let shorter = before.take(at as int);
            assert(shorter.last() == before[at - 1]);
            assert(shorter.drop_last() =~= before.take(at - 1));
            let inner = insert_sorted(before.take(at - 1), entry@);
            assert(insert_sorted(shorter, entry@) == inner.push(before[at - 1]));
            assert(inner.push(before[at - 1]) + before.skip(at as int) =~= inner + before.skip(
                at - 1,
            ));
        }
        at -= 1;
    }
    proof {
        if at > 0 {
            assert(before.take(at as int).last() == before[at - 1]);
        }
        let first = before.take(at as int);
        assert(insert_sorted(first, entry@) == first.push(entry@));
    }
    entries.insert(at, entry);
    assert(models(entries@) =~= before.take(at as int).push(entry@) + before.skip(at as int));
}

/// The header of an entry.
fn header_bytes(entry: &Dirent, next_cookie: u64) -> (bytes: Vec<u8>)
    ensures
        bytes@ == header(entry@, next_cookie),
{
    let mut bytes: Vec<u8> = u64_le_bytes(next_cookie);
    let mut inode: Vec<u8> = u64_le_bytes(0);
    let mut name_len: Vec<u8> = u32_le_bytes(entry.name.len() as u32);
    bytes.append(&mut inode);
    bytes.append(&mut name_len);
    bytes.push(entry.filetype);
    bytes.push(0);
    bytes.push(0);
    bytes.push(0);
    assert(bytes@ =~= header(entry@, next_cookie));
    bytes
}

/// Fills a page with the entries from `from` on. The result says how much of it is used.
fn fill_page(entries: &Vec<Dirent>, from: usize, buf: &mut Vec<u8>) -> (used: usize)
    ensures
        used == page_used(models(entries@), from as nat, old(buf)@.len()),
        final(buf)@ == filled(models(entries@), from as nat, old(buf)@),
{
    let ghost list = models(entries@);
    let ghost before = buf@;
    let room: usize = buf.len();
    let mut written: usize = 0;
    let mut idx: usize = from;
    let ghost mut done: Seq<u8> = Seq::empty();
    proof {
        assert(buf@ =~= done + before.skip(0));
        assert(page(list, from as nat, room as nat) =~= done + page(
            list,
            from as nat,
            room as nat,
        ));
    }
    while idx < entries.len()
        invariant
            list == models(entries@),
            before == old(buf)@,
            room == before.len(),
            buf@.len() == room,
            written <= room,
            done.len() == written,
            buf@ == done + before.skip(written as int),
            page(list, from as nat, room as nat) == done + page(
                list,
                idx as nat,
                (room - written) as nat,
            ),
            page_used(list, from as nat, room as nat) == written + page_used(
                list,
                idx as nat,
                (room - written) as nat,
            ),
        decreases entries@.len() - idx,
    {
        let ghost entry = list[idx as int];
        let ghost next = (idx + 1) as u64;
        let ghost rest = (room - written) as nat;
        proof {
            lemma_header_len(entry, next);
            assert(entry == entries@[idx as int]@);
            assert(stream(list, idx as nat) == dirent_bytes(entry, next) + stream(
                list,
                (idx + 1) as nat,
            ));
        }
        if room - written < HEADER_LEN {
            assert(done + page(list, idx as nat, rest) =~= done);
            return room;
        }
        let header: Vec<u8> = header_bytes(&entries[idx], (idx + 1) as u64);
        copy_into(buf, written, header.as_slice());
        written += HEADER_LEN;
        let name: &Vec<u8> = &entries[idx].name;
        let writable_name: usize = if name.len() < room - written {
            name.len()
        } else {
            room - written
        };
        let part: &[u8] = vstd::slice::slice_subrange(name.as_slice(), 0, writable_name);
        copy_into(buf, written, part);
        written += writable_name;
        proof {
            let bytes = dirent_bytes(entry, next);
            let put = bytes.take(HEADER_LEN + writable_name);
            assert(put =~= header@ + part@);
            assert(buf@ =~= done + put + before.skip(written as int));
            if writable_name < name@.len() {
                assert(put == page(list, idx as nat, rest));
            } else {
                assert(put =~= bytes);
                assert(done + page(list, idx as nat, rest) =~= done + put + page(
                    list,
                    (idx + 1) as nat,
                    (rest - bytes.len()) as nat,
                ));
            }
            done = done + put;
        }
        if writable_name < name.len() {
            return written;
        }
        idx += 1;
    }
    assert(done + page(list, idx as nat, (room - written) as nat) =~= done);
    written
}

/// A page after it was filled with the entries from `from` on.
pub open spec fn filled(entries: Seq<DirentModel>, from: nat, buf: Seq<u8>) -> Seq<u8> {
    page(entries, from, buf.len()) + buf.skip(page(entries, from, buf.len()).len() as int)
}

/// Lists a directory into a page, from the entry on that the cookie stands for, given what the
/// host says of the directory. The result says how much of the page is used.
pub fn fd_readdir(
    ctx: &WasiProcMacroCtx,
    fd: u32,
    cookie: u64,
    buf: &mut Vec<u8>,
    listing: &Result<Vec<HostDirEntry>, IoErrorKind>,
) -> (used: Result<u32, i32>)
    ensures
        used == (match ctx.dir_of(fd) {
            Err(errno) => Err(errno),
            Ok(_) => match *listing {
                Err(kind) => Err(errno::errno_of(kind)),
                Ok(list) => Ok(
                    page_used(
                        sort_entries(told_list(list@)),
                        (cookie as usize) as nat,
                        old(buf)@.len(),
                    ) as usize as u32,
                ),
            },
        }),
        final(buf)@ == (match *listing {
            Ok(list) => if used is Ok {
                filled(sort_entries(told_list(list@)), (cookie as usize) as nat, old(buf)@)
            } else {
                old(buf)@
            },
            Err(_) => old(buf)@,
        }),
{
    if let Err(errno) = ctx.fd_dir(fd) {
        return Err(errno);
    }
    match listing {
        Err(kind) => Err(io_error_to_errno(*kind)),
        Ok(list) => {
            let entries = guest_entries(list);
            Ok(fill_page(&entries, cookie as usize, buf) as u32)
        },
    }
}

/// A listing loses and adds nothing: the guest is told of as many entries as the host lists, each
/// with its name made UTF-8 and its kind, in the order of the names, and entries of one name in the
/// order in which the host lists them.
pub proof fn law_listing_is_complete(listing: Seq<HostDirEntry>)
    ensures
        ({
            let entries = sort_entries(told_list(listing));
            let all = listing.map_values(
                |entry: HostDirEntry|
                    DirentModel {
                        name: vstd::utf8::encode_utf8(text::utf8_lossy(entry.name@)),
                        filetype: if entry.is_symlink {
                            7u8
                        } else if entry.is_dir {
                            3u8
                        } else if entry.is_file {
                            4u8
                        } else {
                            0u8
                        },
                    },
            );
            &&& entries.len() == listing.len()
            &&& entries.to_multiset() == all.to_multiset()
            &&& forall|i: int, j: int|
                0 <= i < j < entries.len() ==> !order::bytes_lt(
                    (#[trigger] entries[j]).name,
                    (#[trigger] entries[i]).name,
                )
            &&& forall|name: Seq<u8>| #[trigger]
                named_entries(entries, name) == named_entries(all, name)
        }),
{
    let entries = sort_entries(told_list(listing));
    let all = listing.map_values(
        |entry: HostDirEntry|
            DirentModel {
                name: vstd::utf8::encode_utf8(text::utf8_lossy(entry.name@)),
                filetype: if entry.is_symlink {
                    7u8
                } else if entry.is_dir {
                    3u8
                } else if entry.is_file {
                    4u8
                } else {
                    0u8
                },
            },
    );
    assert(told_list(listing) =~= all);
    law_sort_orders_entries(all);
    assert forall|name: Seq<u8>| #[trigger]
        named_entries(entries, name) == named_entries(all, name) by {
        law_sort_is_stable(all, name);
        lemma_named_entries(all, name);
        lemma_named_entries(entries, name);
    }
}

/// The entries of one name.
pub open spec fn named_entries(list: Seq<DirentModel>, name: Seq<u8>) -> Seq<DirentModel> {
    list.filter(|entry: DirentModel| entry.name == name)
}

/// Two ways to pick the entries of one name.
proof fn lemma_named_entries(list: Seq<DirentModel>, name: Seq<u8>)
    ensures
        named_entries(list, name) == of_name(list, name),
    decreases list.len(),
{
    reveal(Seq::filter);
    if list.len() > 0 {
        lemma_named_entries(list.drop_last(), name);
    } else {
        assert(named_entries(list, name) =~= of_name(list, name));
    }
}

/// An entry stands in a page as the cookie of the next entry in eight bytes, eight zeros, the
/// length of its name in four bytes, its kind, three zeros, and its name.
pub proof fn law_entry_bytes(entry: DirentModel, next_cookie: u64)
    requires
        entry.name.len() <= 0xffff_ffff,
    ensures
        ({
            let bytes = dirent_bytes(entry, next_cookie);
            &&& bytes.len() == 24 + entry.name.len()
            &&& memory::le_value(bytes.subrange(0, 8)) == next_cookie
            &&& forall|i: int| 8 <= i < 16 ==> bytes[i] == 0
            &&& memory::le_value(bytes.subrange(16, 20)) == entry.name.len()
            &&& bytes[20] == entry.filetype
            &&& bytes[21] == 0 && bytes[22] == 0 && bytes[23] == 0
            &&& bytes.skip(24) == entry.name
        }),
{
    let bytes = dirent_bytes(entry, next_cookie);
    let cookie = memory::le_bytes(next_cookie as nat, 8);
    let zeros = memory::le_bytes(0, 8);
    let len = memory::le_bytes(entry.name.len(), 4);
    memory::lemma_le_bytes_len(next_cookie as nat, 8);
    memory::lemma_le_bytes_len(0, 8);
    memory::lemma_le_bytes_len(entry.name.len(), 4);
    reveal_with_fuel(memory::pow256, 9);
    memory::law_le_round_trip(next_cookie as nat, 8);
    memory::law_le_round_trip(entry.name.len(), 4);
    memory::law_bytes_of_numbers(0);
    assert(bytes.subrange(0, 8) =~= cookie);
    assert(bytes.subrange(16, 20) =~= len);
    assert(bytes.skip(24) =~= entry.name);
    assert(zeros =~= Seq::new(8, |i: int| 0u8));
    assert forall|i: int| 8 <= i < 16 implies bytes[i] == 0 by {
        assert(bytes[i] == zeros[i - 8]);
    }
}

/// The entries from some one on stand one after the other, each with the number of the next one as
/// its cookie.
pub proof fn law_stream_of_entries(entries: Seq<DirentModel>, from: nat)
    requires
        from <= entries.len(),
    ensures
        stream(entries, from) == Seq::new(
            (entries.len() - from) as nat,
            |i: int| dirent_bytes(entries[from + i], (from + i + 1) as u64),
        ).flatten(),
    decreases entries.len() - from,
{
    let list = Seq::new(
        (entries.len() - from) as nat,
        |i: int| dirent_bytes(entries[from + i], (from + i + 1) as u64),
    );
    if from < entries.len() {
        law_stream_of_entries(entries, from + 1);
        assert(list.drop_first() =~= Seq::new(
            (entries.len() - (from + 1)) as nat,
            |i: int| dirent_bytes(entries[from + 1 + i], (from + 1 + i + 1) as u64),
        ));
        assert(list.first() == dirent_bytes(entries[from as int], (from + 1) as u64));
    } else {
        assert(stream(entries, from) =~= list.flatten());
    }
}

/// How long a page is: it holds all whole entries that fit, and behind them, where there is room
/// for another header, as much of the next entry as fits. It is said to be used whole unless all
/// entries fit with room to spare.
pub proof fn law_page_length(entries: Seq<DirentModel>, from: nat, room: nat)
    ensures
        ({
            let next = from + whole_entries(entries, from, room);
            let whole = stream(entries, from).len() - stream(entries, next).len();
            let here = page(entries, from, room);
            &&& 0 <= whole <= room
            &&& next >= entries.len() ==> here.len() == whole
            &&& next < entries.len() ==> {
                &&& whole + 24 + entries[next as int].name.len() > room
                &&& here.len() == (if room - whole < 24 {
                    whole
                } else {
                    room as int
                })
            }
            &&& page_used(entries, from, room) == (if stream(entries, from).len() < room {
                stream(entries, from).len()
            } else {
                room
            })
        }),
    decreases entries.len() - from,
{
    if from < entries.len() {
        let entry = entries[from as int];
        let bytes = dirent_bytes(entry, (from + 1) as u64);
        lemma_header_len(entry, (from + 1) as u64);
        if bytes.len() <= room {
            law_page_length(entries, from + 1, (room - bytes.len()) as nat);
        }
    }
}

/// Filling a page changes nothing of it but its beginning, which is the beginning of what is to be
/// listed.
pub proof fn law_filled_page(entries: Seq<DirentModel>, from: nat, buf: Seq<u8>)
    ensures
        ({
            let n = page(entries, from, buf.len()).len() as int;
            let now = filled(entries, from, buf);
            &&& n <= stream(entries, from).len()
            &&& now.len() == buf.len()
            &&& now.take(n) == stream(entries, from).take(n)
            &&& now.skip(n) == buf.skip(n)
        }),
{
    law_page_is_prefix(entries, from, buf.len());
    let n = page(entries, from, buf.len()).len() as int;
    let now = filled(entries, from, buf);
    assert(now.take(n) =~= page(entries, from, buf.len()));
    assert(now.skip(n) =~= buf.skip(n));
}

/// What a list of entries says is what each of them holds.
pub proof fn law_members_of_lists(list: Seq<Dirent>)
    ensures
        models(list).len() == list.len(),
        forall|i: int|
            0 <= i < list.len() ==> (#[trigger] models(list)[i]).name == list[i].name@ && models(
                list,
            )[i].filetype == list[i].filetype,
{
}

/// Behind the last entry there is nothing to list.
pub proof fn law_end_of_listing(entries: Seq<DirentModel>, from: nat, buf: Seq<u8>)
    requires
        from >= entries.len(),
    ensures
        stream(entries, from) == Seq::<u8>::empty(),
        page_used(entries, from, buf.len()) == 0,
        filled(entries, from, buf) == buf,
{
    assert(filled(entries, from, buf) =~= buf);
}

} // verus!
