//! The token stream functions: strings, byte strings and token streams that the guest knows by
//! number.
use crate::data;
use crate::data::Data;
use crate::memory;
use crate::memory::{copy_into, copy_out};
use vstd::prelude::*;
use vstd::string::StringSliceAdditionalSpecFns;

verus! {

/// Why the host gives up on a guest.
#[derive(Debug, PartialEq, Eq)]
pub enum SymPanic {
    /// Nothing is known by a number.
    UnknownHandle,
    /// A region does not lie within the memory.
    OutOfBounds,
    /// A string is not UTF-8.
    NonUtf8,
    /// All numbers stand for something else.
    NoNumberLeft,
    /// The guest said why itself.
    Message(String),
}

/// Whether a string was made of a literal, or nothing was done but to say why not.
pub open spec fn made_of_literal<T>(
    before: Data<T>,
    after: Data<T>,
    literal: u32,
    string: Result<u32, SymPanic>,
) -> bool {
    if literal < before.literal@.len() {
        string_added(before, after, before.literal@[literal as int]@, string)
    } else {
        &&& string == Err::<u32, SymPanic>(SymPanic::UnknownHandle)
        &&& after == before
    }
}

/// Whether all that was done is that a string was added, if there is a number left for it.
pub open spec fn string_added<T>(
    before: Data<T>,
    after: Data<T>,
    text: Seq<char>,
    string: Result<u32, SymPanic>,
) -> bool {
    &&& after == (Data { string: after.string, ..before })
    &&& if data::numbers_suffice(before.string@.len() + 1) {
        &&& string == Ok::<u32, SymPanic>(before.string@.len() as u32)
        &&& after.string@.len() == before.string@.len() + 1
        &&& after.string@.drop_last() == before.string@
        &&& after.string@.last()@ == text
    } else {
        &&& string == Err::<u32, SymPanic>(SymPanic::NoNumberLeft)
        &&& after.string@ == before.string@
    }
}

/// Adds a string. The result is its number.
fn add_string<T>(d: &mut Data<T>, text: String) -> (string: Result<u32, SymPanic>)
    ensures
        string_added(*old(d), *final(d), text@, string),
{
    match d.string.push(text) {
        Some(handle) => {
            assert(d.string@.drop_last() =~= old(d).string@);
            Ok(handle)
        },
        None => Err(SymPanic::NoNumberLeft),
    }
}

/// Makes a string of a literal. The result is the number of the string.
pub fn literal_to_string<T>(d: &mut Data<T>, literal: u32) -> (string: Result<u32, SymPanic>)
    ensures
        made_of_literal(*old(d), *final(d), literal, string),
{
    let text: String = match d.literal.get(literal) {
        Some(text) => text.as_str().to_owned(),
        None => return Err(SymPanic::UnknownHandle),
    };
    add_string(d, text)
}

/// Whether a result is a copy of a region of the memory, if it lies within it.
pub open spec fn is_region(
    memory: Seq<u8>,
    ptr: u32,
    len: u32,
    bytes: Result<Vec<u8>, SymPanic>,
) -> bool {
    if ptr + len <= memory.len() {
        bytes matches Ok(bytes) && bytes@ == memory.subrange(ptr as int, ptr + len)
    } else {
        bytes == Err::<Vec<u8>, SymPanic>(SymPanic::OutOfBounds)
    }
}

/// A copy of a region of the memory, if it lies within it.
pub fn region(memory: &Vec<u8>, ptr: u32, len: u32) -> (bytes: Result<Vec<u8>, SymPanic>)
    ensures
        is_region(memory@, ptr, len, bytes),
{
    if ptr as u64 + len as u64 > memory.len() as u64 {
        return Err(SymPanic::OutOfBounds);
    }
    Ok(copy_out(memory.as_slice(), ptr as usize, len as usize))
}

/// The text that bytes encode, if they do.
fn decode(bytes: &Vec<u8>) -> (text: Option<String>)
    ensures
        if vstd::utf8::valid_utf8(bytes@) {
            text matches Some(text) && text@ == vstd::utf8::decode_utf8(bytes@)
        } else {
            text is None
        },
{
    match std::str::from_utf8(bytes.as_slice()) {
        Ok(text) => {
            proof {
                vstd::utf8::encode_utf8_decode_utf8(text@);
            }
            Some(text.to_owned())
        },
        Err(_) => None,
    }
}

/// Why no string can be made of a region, if none can.
pub open spec fn string_new_error(memory: Seq<u8>, ptr: u32, len: u32) -> Option<SymPanic> {
    if ptr + len > memory.len() {
        Some(SymPanic::OutOfBounds)
    } else if !vstd::utf8::valid_utf8(memory.subrange(ptr as int, ptr + len)) {
        Some(SymPanic::NonUtf8)
    } else {
        None
    }
}

/// Whether a string was made of a region of the memory, or nothing was done but to say why not.
pub open spec fn made_of_region<T>(
    before: Data<T>,
    after: Data<T>,
    memory: Seq<u8>,
    ptr: u32,
    len: u32,
    string: Result<u32, SymPanic>,
) -> bool {
    match string_new_error(memory, ptr, len) {
        Some(panic) => {
            &&& string == Err::<u32, SymPanic>(panic)
            &&& after == before
        },
        None => string_added(
            before,
            after,
            vstd::utf8::decode_utf8(memory.subrange(ptr as int, ptr + len)),
            string,
        ),
    }
}

/// Makes a string of a region of the memory. The result is its number.
pub fn string_new<T>(d: &mut Data<T>, memory: &Vec<u8>, ptr: u32, len: u32) -> (string: Result<
    u32,
    SymPanic,
>)
    ensures
        made_of_region(*old(d), *final(d), memory@, ptr, len, string),
{
    let bytes: Vec<u8> = match region(memory, ptr, len) {
        Ok(bytes) => bytes,
        Err(panic) => return Err(panic),
    };
    match decode(&bytes) {
        Some(text) => add_string(d, text),
        None => Err(SymPanic::NonUtf8),
    }
}

/// The length of a string in bytes.
pub open spec fn string_len_of<T>(d: &Data<T>, string: u32) -> Result<u32, SymPanic> {
    if string < d.string@.len() {
        Ok(vstd::utf8::encode_utf8(d.string@[string as int]@).len() as usize as u32)
    } else {
        Err(SymPanic::UnknownHandle)
    }
}

/// The length of a string in bytes.
pub fn string_len<T>(d: &Data<T>, string: u32) -> (len: Result<u32, SymPanic>)
    ensures
        len == string_len_of(d, string),
{
    match d.string.get(string) {
        Some(text) => Ok(text.as_str().len() as u32),
        None => Err(SymPanic::UnknownHandle),
    }
}

/// What comes of putting bytes at a place in the memory: the memory, or why it cannot be done.
pub open spec fn put(memory: Seq<u8>, ptr: u32, bytes: Seq<u8>) -> Result<Seq<u8>, SymPanic> {
    if ptr + bytes.len() <= memory.len() {
        Ok(memory::splice(memory, ptr as int, bytes))
    } else {
        Err(SymPanic::OutOfBounds)
    }
}

/// Whether a read did what it should: `wanted` is what comes of it.
pub open spec fn read_done(
    before: Seq<u8>,
    after: Seq<u8>,
    wanted: Result<Seq<u8>, SymPanic>,
    result: Result<(), SymPanic>,
) -> bool {
    match wanted {
        Ok(memory) => result is Ok && after == memory,
        Err(panic) => result == Err::<(), SymPanic>(panic) && after == before,
    }
}

/// Puts bytes at a place in the memory.
fn put_bytes(memory: &mut Vec<u8>, ptr: u32, bytes: &[u8]) -> (result: Result<(), SymPanic>)
    ensures
        read_done(old(memory)@, final(memory)@, put(old(memory)@, ptr, bytes@), result),
{
    let room: usize = memory.len();
    if ptr as u64 > room as u64 || bytes.len() as u64 > room as u64 - ptr as u64 {
        return Err(SymPanic::OutOfBounds);
    }
    copy_into(memory, ptr as usize, bytes);
    Ok(())
}

/// What comes of putting the bytes of a string at a place in the memory.
pub open spec fn string_read_of<T>(d: &Data<T>, memory: Seq<u8>, string: u32, ptr: u32) -> Result<
    Seq<u8>,
    SymPanic,
> {
    if string < d.string@.len() {
        put(memory, ptr, vstd::utf8::encode_utf8(d.string@[string as int]@))
    } else {
        Err(SymPanic::UnknownHandle)
    }
}

/// Puts the bytes of a string where the guest wants them.
pub fn string_read<T>(d: &Data<T>, memory: &mut Vec<u8>, string: u32, ptr: u32) -> (result: Result<
    (),
    SymPanic,
>)
    ensures
        read_done(
            old(memory)@,
            final(memory)@,
            string_read_of(d, old(memory)@, string, ptr),
            result,
        ),
{
    match d.string.get(string) {
        Some(text) => put_bytes(memory, ptr, text.as_str().as_bytes()),
        None => Err(SymPanic::UnknownHandle),
    }
}

/// Whether the host gives up with the string that the guest gives.
pub open spec fn is_panic_with<T>(d: &Data<T>, string: u32, panic: SymPanic) -> bool {
    if string < d.string@.len() {
        panic matches SymPanic::Message(text) && text@ == d.string@[string as int]@
    } else {
        panic == SymPanic::UnknownHandle
    }
}

/// Gives up on the guest, with the string that it gives.
pub fn print_panic<T>(d: &Data<T>, string: u32) -> (panic: SymPanic)
    ensures
        is_panic_with(d, string, panic),
{
    match d.string.get(string) {
        Some(text) => SymPanic::Message(text.as_str().to_owned()),
        None => SymPanic::UnknownHandle,
    }
}

/// The length of a byte string.
pub open spec fn bytes_len_of<T>(d: &Data<T>, bytes: u32) -> Result<u32, SymPanic> {
    if bytes < d.bytes@.len() {
        Ok(d.bytes@[bytes as int]@.len() as usize as u32)
    } else {
        Err(SymPanic::UnknownHandle)
    }
}

/// The length of a byte string.
pub fn bytes_len<T>(d: &Data<T>, bytes: u32) -> (len: Result<u32, SymPanic>)
    ensures
        len == bytes_len_of(d, bytes),
{
    match d.bytes.get(bytes) {
        Some(bytes) => Ok(bytes.len() as u32),
        None => Err(SymPanic::UnknownHandle),
    }
}

/// What comes of putting a byte string at a place in the memory.
pub open spec fn bytes_read_of<T>(d: &Data<T>, memory: Seq<u8>, bytes: u32, ptr: u32) -> Result<
    Seq<u8>,
    SymPanic,
> {
    if bytes < d.bytes@.len() {
        put(memory, ptr, d.bytes@[bytes as int]@)
    } else {
        Err(SymPanic::UnknownHandle)
    }
}

/// Puts a byte string where the guest wants it.
pub fn bytes_read<T>(d: &Data<T>, memory: &mut Vec<u8>, bytes: u32, ptr: u32) -> (result: Result<
    (),
    SymPanic,
>)
    ensures
        read_done(
            old(memory)@,
            final(memory)@,
            bytes_read_of(d, old(memory)@, bytes, ptr),
            result,
        ),
{
    match d.bytes.get(bytes) {
        Some(bytes) => put_bytes(memory, ptr, bytes.as_slice()),
        None => Err(SymPanic::UnknownHandle),
    }
}

/// Whether a value was added and its number returned, if there is one left for it.
pub open spec fn is_added<T>(
    before: Seq<T>,
    after: Seq<T>,
    item: T,
    number: Result<u32, SymPanic>,
) -> bool {
    if data::numbers_suffice(before.len() + 1) {
        &&& number == Ok::<u32, SymPanic>(before.len() as u32)
        &&& after == before.push(item)
    } else {
        &&& number == Err::<u32, SymPanic>(SymPanic::NoNumberLeft)
        &&& after == before
    }
}

/// A number, if there is one left.
fn numbered(handle: Option<u32>) -> (number: Result<u32, SymPanic>)
    ensures
        number == (match handle {
            Some(handle) => Ok(handle),
            None => Err(SymPanic::NoNumberLeft),
        }),
{
    match handle {
        Some(handle) => Ok(handle),
        None => Err(SymPanic::NoNumberLeft),
    }
}

/// Keeps the bytes that the host has encoded a token stream as. The result is their number.
pub fn token_stream_serialize<T>(d: &mut Data<T>, stream: u32, encoded: Vec<u8>) -> (bytes: Result<
    u32,
    SymPanic,
>)
    ensures
        *final(d) == (Data { bytes: final(d).bytes, ..*old(d) }),
        if stream >= old(d).tokenstream@.len() {
            &&& bytes == Err::<u32, SymPanic>(SymPanic::UnknownHandle)
            &&& final(d).bytes@ == old(d).bytes@
        } else {
            is_added(old(d).bytes@, final(d).bytes@, encoded, bytes)
        },
{
    if d.tokenstream.get(stream).is_none() {
        return Err(SymPanic::UnknownHandle);
    }
    numbered(d.bytes.push(encoded))
}

/// Keeps a token stream that the host has decoded from a region of the memory. The result is its
/// number.
pub fn token_stream_deserialize<T>(d: &mut Data<T>, decoded: T) -> (stream: Result<u32, SymPanic>)
    ensures
        *final(d) == (Data { tokenstream: final(d).tokenstream, ..*old(d) }),
        is_added(old(d).tokenstream@, final(d).tokenstream@, decoded, stream),
{
    numbered(d.tokenstream.push(decoded))
}

/// Whether a result is the text of a region of the memory, if it is UTF-8.
pub open spec fn is_parse_input(
    memory: Seq<u8>,
    ptr: u32,
    len: u32,
    text: Result<Option<String>, SymPanic>,
) -> bool {
    match string_new_error(memory, ptr, len) {
        None => text matches Ok(Some(text)) && text@ == vstd::utf8::decode_utf8(
            memory.subrange(ptr as int, ptr + len),
        ),
        Some(SymPanic::NonUtf8) => text matches Ok(None),
        Some(panic) => text == Err::<Option<String>, SymPanic>(panic),
    }
}

/// The text that is to be parsed as a token stream: a region of the memory, if it is UTF-8.
pub fn parse_input(memory: &Vec<u8>, ptr: u32, len: u32) -> (text: Result<Option<String>, SymPanic>)
    ensures
        is_parse_input(memory@, ptr, len, text),
{
    match region(memory, ptr, len) {
        Ok(bytes) => Ok(decode(&bytes)),
        Err(panic) => Err(panic),
    }
}

/// The number that stands for a text that could not be parsed.
pub const PARSE_FAILED: u32 = u32::MAX;

/// Keeps a token stream that the host has parsed, if it could. The result is its number, or one
/// that says that it could not.
pub fn token_stream_parse<T>(d: &mut Data<T>, parsed: Option<T>) -> (stream: Result<u32, SymPanic>)
    ensures
        *final(d) == (Data { tokenstream: final(d).tokenstream, ..*old(d) }),
        match parsed {
            Some(parsed) => is_added(
                old(d).tokenstream@,
                final(d).tokenstream@,
                parsed,
                stream,
            ),
            None => {
                &&& stream == Ok::<u32, SymPanic>(PARSE_FAILED)
                &&& final(d).tokenstream@ == old(d).tokenstream@
            },
        },
{
    match parsed {
        Some(parsed) => numbered(d.tokenstream.push(parsed)),
        None => Ok(PARSE_FAILED),
    }
}

/// What a guest makes a string of it reads back: the region that a string was made of, put
/// anywhere in any memory that has room for it, is the same bytes, as many as the string is said
/// to have, and nothing else in the memory changes.
pub proof fn law_string_round_trip<T>(
    before: Data<T>,
    after: Data<T>,
    source: Seq<u8>,
    ptr: u32,
    len: u32,
    string: u32,
    memory: Seq<u8>,
    at: u32,
)
    requires
        made_of_region(before, after, source, ptr, len, Ok(string)),
        at + len <= memory.len(),
    ensures
        string_len_of(&after, string) == Ok::<u32, SymPanic>(len),
        string_read_of(&after, memory, string, at) matches Ok(now) && {
            &&& now.len() == memory.len()
            &&& now.subrange(at as int, at + len) == source.subrange(ptr as int, ptr + len)
            &&& forall|i: int|
                0 <= i < memory.len() && !(at <= i < at + len) ==> now[i] == memory[i]
        },
{
    let bytes = source.subrange(ptr as int, ptr + len);
    vstd::utf8::decode_utf8_encode_utf8(bytes);
    assert(after.string@[string as int] == after.string@.last());
    assert(vstd::utf8::encode_utf8(after.string@[string as int]@) == bytes);
    let now = memory::splice(memory, at as int, bytes);
    assert(now.subrange(at as int, at + len) =~= bytes);
}

/// A string that is added gets the next number and stands behind the others, which keep theirs.
/// Where no number is left, nothing is added.
pub proof fn law_added_strings<T>(
    before: Data<T>,
    after: Data<T>,
    text: Seq<char>,
    string: Result<u32, SymPanic>,
)
    requires
        string_added(before, after, text, string),
    ensures
        after.tokenstream == before.tokenstream,
        after.bytes == before.bytes,
        after.literal == before.literal,
        forall|i: int|
            0 <= i < before.string@.len() ==> (#[trigger] after.string@[i]) == before.string@[i],
        before.string@.len() <= 0xffff_ffff ==> {
            &&& string == Ok::<u32, SymPanic>(before.string@.len() as u32)
            &&& after.string@.len() == before.string@.len() + 1
            &&& after.string@.last()@ == text
        },
        before.string@.len() > 0xffff_ffff ==> {
            &&& string == Err::<u32, SymPanic>(SymPanic::NoNumberLeft)
            &&& after.string@.len() == before.string@.len()
        },
{
    if before.string@.len() <= 0xffff_ffff {
        assert forall|i: int| 0 <= i < before.string@.len() implies (#[trigger] after.string@[i])
            == before.string@[i] by {
            assert(after.string@.drop_last()[i] == after.string@[i]);
        }
    }
}

/// A value that is added gets the next number and stands behind the others, which keep theirs.
/// Where no number is left, nothing is added.
pub proof fn law_added_values<T>(
    before: Seq<T>,
    after: Seq<T>,
    item: T,
    number: Result<u32, SymPanic>,
)
    requires
        is_added(before, after, item, number),
    ensures
        forall|i: int| 0 <= i < before.len() ==> (#[trigger] after[i]) == before[i],
        before.len() <= 0xffff_ffff ==> {
            &&& number == Ok::<u32, SymPanic>(before.len() as u32)
            &&& after.len() == before.len() + 1
            &&& after.last() == item
        },
        before.len() > 0xffff_ffff ==> {
            &&& number == Err::<u32, SymPanic>(SymPanic::NoNumberLeft)
            &&& after.len() == before.len()
        },
{
}

/// A literal is made a string with the same text; a number without a literal is unknown, and
/// nothing is made.
pub proof fn law_strings_of_literals<T>(
    before: Data<T>,
    after: Data<T>,
    literal: u32,
    string: Result<u32, SymPanic>,
)
    requires
        made_of_literal(before, after, literal, string),
    ensures
        literal < before.literal@.len() ==> string_added(
            before,
            after,
            before.literal@[literal as int]@,
            string,
        ),
        literal >= before.literal@.len() ==> after == before && string == Err::<u32, SymPanic>(
            SymPanic::UnknownHandle,
        ),
{
}

/// A region is made a string of the text that it encodes, if it lies within the memory and encodes
/// one; otherwise nothing is made.
pub proof fn law_strings_of_regions<T>(
    before: Data<T>,
    after: Data<T>,
    memory: Seq<u8>,
    ptr: u32,
    len: u32,
    string: Result<u32, SymPanic>,
)
    requires
        made_of_region(before, after, memory, ptr, len, string),
    ensures
        ptr + len > memory.len() ==> after == before && string == Err::<u32, SymPanic>(
            SymPanic::OutOfBounds,
        ),
        ptr + len <= memory.len() ==> {
            let bytes = memory.subrange(ptr as int, ptr + len);
            &&& !vstd::utf8::valid_utf8(bytes) ==> after == before && string == Err::<
                u32,
                SymPanic,
            >(SymPanic::NonUtf8)
            &&& vstd::utf8::valid_utf8(bytes) ==> string_added(
                before,
                after,
                vstd::utf8::decode_utf8(bytes),
                string,
            )
        },
{
}

/// Strings and byte strings are as long as the bytes that are read for them, and those are put
/// where the guest wants them if they fit there. A number that stands for nothing is unknown.
pub proof fn law_reads<T>(d: &Data<T>, memory: Seq<u8>, number: u32, ptr: u32)
    ensures
        number >= d.string@.len() ==> string_len_of(d, number) == Err::<u32, SymPanic>(
            SymPanic::UnknownHandle,
        ) && string_read_of(d, memory, number, ptr) == Err::<Seq<u8>, SymPanic>(
            SymPanic::UnknownHandle,
        ),
        number < d.string@.len() ==> {
            let bytes = vstd::utf8::encode_utf8(d.string@[number as int]@);
            &&& string_read_of(d, memory, number, ptr) == put(memory, ptr, bytes)
            &&& bytes.len() <= u32::MAX ==> string_len_of(d, number) == Ok::<u32, SymPanic>(
                bytes.len() as u32,
            )
        },
        number >= d.bytes@.len() ==> bytes_len_of(d, number) == Err::<u32, SymPanic>(
            SymPanic::UnknownHandle,
        ) && bytes_read_of(d, memory, number, ptr) == Err::<Seq<u8>, SymPanic>(
            SymPanic::UnknownHandle,
        ),
        number < d.bytes@.len() ==> {
            let bytes = d.bytes@[number as int]@;
            &&& bytes_read_of(d, memory, number, ptr) == put(memory, ptr, bytes)
            &&& bytes.len() <= u32::MAX ==> bytes_len_of(d, number) == Ok::<u32, SymPanic>(
                bytes.len() as u32,
            )
        },
{
}

/// Bytes that fit at a place stand there afterwards, and everything else stays; bytes that do not
/// fit are out of bounds.
pub proof fn law_put_bytes(memory: Seq<u8>, ptr: u32, bytes: Seq<u8>)
    ensures
        ptr + bytes.len() > memory.len() ==> put(memory, ptr, bytes) == Err::<Seq<u8>, SymPanic>(
            SymPanic::OutOfBounds,
        ),
        ptr + bytes.len() <= memory.len() ==> {
            &&& put(memory, ptr, bytes) matches Ok(now)
            &&& now.len() == memory.len()
            &&& now.subrange(ptr as int, ptr + bytes.len()) == bytes
            &&& forall|i: int|
                0 <= i < memory.len() && !(ptr <= i < ptr + bytes.len()) ==> (#[trigger] now[i])
                    == memory[i]
        },
{
    if ptr + bytes.len() <= memory.len() {
        memory::law_splice_read_back(memory, ptr as int, bytes);
    }
}

/// A read that can be done changes the memory as it should; one that cannot changes nothing and
/// says why.
pub proof fn law_done_reads(
    before: Seq<u8>,
    after: Seq<u8>,
    wanted: Result<Seq<u8>, SymPanic>,
    result: Result<(), SymPanic>,
)
    requires
        read_done(before, after, wanted, result),
    ensures
        wanted matches Ok(memory) ==> after == memory && result is Ok,
        wanted matches Err(panic) ==> after == before && result == Err::<(), SymPanic>(panic),
{
}

/// The host gives up with the text of the string that the guest gives, or because there is no such
/// string.
pub proof fn law_panics<T>(d: &Data<T>, string: u32, panic: SymPanic)
    requires
        is_panic_with(d, string, panic),
    ensures
        string < d.string@.len() ==> panic is Message && panic->Message_0@
            == d.string@[string as int]@,
        string >= d.string@.len() ==> panic == SymPanic::UnknownHandle,
{
}

/// What is to be decoded is the region that the guest names, and what is to be parsed is the text
/// that the region encodes. A region beyond the memory ends the guest, and one without a text
/// cannot be parsed.
pub proof fn law_regions_for_the_host(
    memory: Seq<u8>,
    ptr: u32,
    len: u32,
    bytes: Result<Vec<u8>, SymPanic>,
    text: Result<Option<String>, SymPanic>,
)
    requires
        is_region(memory, ptr, len, bytes),
        is_parse_input(memory, ptr, len, text),
    ensures
        PARSE_FAILED == 0xffff_ffff,
        ptr + len > memory.len() ==> bytes == Err::<Vec<u8>, SymPanic>(SymPanic::OutOfBounds)
            && text == Err::<Option<String>, SymPanic>(SymPanic::OutOfBounds),
        ptr + len <= memory.len() ==> {
            let region = memory.subrange(ptr as int, ptr + len);
            &&& bytes is Ok
            &&& bytes->Ok_0@ == region
            &&& text is Ok
            &&& text->Ok_0 is Some <==> vstd::utf8::valid_utf8(region)
            &&& text->Ok_0 matches Some(found) ==> found@ == vstd::utf8::decode_utf8(region)
        },
{
}

} // verus!
