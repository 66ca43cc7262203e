//! What registering handles and reading and moving blob streams gives, told
//! from the prefixes, the descriptor and the calls.

use crate::blob_descriptor::DescriptorView;
use crate::blob_reader::Readers;
use crate::blob_stream::{BlobStreamError, ReadPlan, StreamView};
use vstd::prelude::*;
use vstd::string::*;

verus! {

/// A registration if absent adds the handle where the prefix had none, to
/// any registry, and otherwise changes nothing.
pub proof fn law_registered_if_absent<F>(readers: Readers<F>, prefix: Seq<char>, file_io: F)
    ensures
        !readers.contains_key(prefix) ==> crate::blob_reader::with_default(
            readers,
            prefix,
            file_io,
        ) == readers.insert(prefix, file_io),
        readers.contains_key(prefix) ==> crate::blob_reader::with_default(readers, prefix, file_io)
            == readers,
{
}

/// After a registration if absent the prefix has a handle, and every other
/// prefix has the one it had.
pub proof fn law_registration_if_absent_touches_its_prefix_alone<F>(
    readers: Readers<F>,
    prefix: Seq<char>,
    file_io: F,
    other: Seq<char>,
)
    ensures
        ({
            let after = crate::blob_reader::with_default(readers, prefix, file_io);
            &&& after.contains_key(prefix)
            &&& after[prefix] == if readers.contains_key(prefix) {
                readers[prefix]
            } else {
                file_io
            }
            &&& other != prefix ==> (after.contains_key(other) <==> readers.contains_key(other))
            &&& other != prefix && readers.contains_key(other) ==> after[other] == readers[other]
        }),
{
}

/// A URI resolves to the handle of a registered prefix of it that none
/// registered is longer than, and to none where no registered prefix begins
/// it.
pub proof fn law_uri_resolves_by_its_longest_prefix<F>(
    readers: Readers<F>,
    uri: Seq<char>,
    prefix: Seq<char>,
)
    ensures
        readers.contains_key(prefix) && prefix.is_prefix_of(uri) && (forall|other: Seq<char>|
         #[trigger]
            readers.contains_key(other) && other.is_prefix_of(uri) ==> other.len() <= prefix.len())
            ==> crate::blob_reader::resolved(readers, uri) == Some(readers[prefix]),
        (forall|other: Seq<char>| #[trigger]
            readers.contains_key(other) ==> !other.is_prefix_of(uri))
            ==> crate::blob_reader::resolved(readers, uri) is None,
{
    if readers.contains_key(prefix) && prefix.is_prefix_of(uri) && (forall|other: Seq<char>|
     #[trigger]
        readers.contains_key(other) && other.is_prefix_of(uri) ==> other.len() <= prefix.len()) {
        crate::blob_reader::law_longest_prefix_wins(readers, uri, prefix);
    }
    crate::blob_reader::law_resolves_where_a_prefix_matches(readers, uri);
}

/// What a URI resolves to is a registered handle of some prefix of it.
pub proof fn law_resolved_handle_was_registered<F>(readers: Readers<F>, uri: Seq<char>, file_io: F)
    requires
        crate::blob_reader::resolved(readers, uri) == Some(file_io),
    ensures
        exists|prefix: Seq<char>| #[trigger]
            readers.contains_key(prefix) && prefix.is_prefix_of(uri) && readers[prefix] == file_io,
{
    let prefix = choose|prefix: Seq<char>| #[trigger]
        crate::blob_reader::longest_match(readers, uri, prefix);
    assert(readers.contains_key(prefix) && prefix.is_prefix_of(uri) && readers[prefix] == file_io);
}

/// A URI that begins with a prefix and with no other registered one that is
/// longer resolves after a registration if absent, to the handle that the
/// prefix had or else to the new one.
pub proof fn law_registered_if_absent_is_resolved<F>(
    readers: Readers<F>,
    prefix: Seq<char>,
    file_io: F,
    uri: Seq<char>,
)
    requires
        prefix.is_prefix_of(uri),
        forall|other: Seq<char>| #[trigger]
            readers.contains_key(other) && other.is_prefix_of(uri) ==> other.len() <= prefix.len(),
    ensures
        crate::blob_reader::resolved(
            crate::blob_reader::with_default(readers, prefix, file_io),
            uri,
        ) == Some(
            if readers.contains_key(prefix) {
                readers[prefix]
            } else {
                file_io
            },
        ),
{
    let after = crate::blob_reader::with_default(readers, prefix, file_io);
    law_uri_resolves_by_its_longest_prefix(after, uri, prefix);
}

/// A descriptor opens just when its offset is not negative and its length is
/// at least -1. The offset is looked at first.
pub proof fn law_what_descriptors_open<F>(file_io: F, descriptor: DescriptorView)
    ensures
        StreamView::opened(file_io, descriptor) is Ok <==> descriptor.offset >= 0
            && descriptor.length >= -1,
        descriptor.offset < 0 ==> StreamView::opened(file_io, descriptor) == Err::<
            StreamView<F>,
            BlobStreamError,
        >(BlobStreamError::NegativeOffset(descriptor.offset)),
        descriptor.offset >= 0 && descriptor.length < -1 ==> StreamView::opened(file_io, descriptor)
            == Err::<StreamView<F>, BlobStreamError>(
            BlobStreamError::InvalidLength(descriptor.length),
        ),
        StreamView::opened(file_io, descriptor) matches Ok(stream) ==> {
            &&& stream.file_io == file_io
            &&& stream.uri == descriptor.uri
            &&& stream.offset == descriptor.offset
            &&& stream.position == 0
            &&& !stream.closed
            &&& stream.length is None <==> descriptor.length == -1
            &&& stream.length matches Some(length) ==> length == descriptor.length
        },
{
}

/// A blob with a length has that many bytes. One without reaches from its
/// offset to the end of the file.
pub proof fn law_how_many_bytes_a_blob_has<F>(stream: StreamView<F>, file_size: nat)
    ensures
        stream.length matches Some(length) ==> stream.blob_length(file_size) == length,
        stream.length is None && stream.offset <= file_size ==> stream.offset + stream.blob_length(
            file_size,
        ) == file_size,
        stream.length is None && stream.offset > file_size ==> stream.blob_length(file_size) == 0,
{
}

/// A read gives as many bytes as it asks for and the blob has left, from the
/// position on: all that are left where its size is negative, and none just
/// where it asks for none or none are left.
pub proof fn law_read_gives_what_it_asks_for<F>(
    stream: StreamView<F>,
    plan: ReadPlan,
    blob_length: nat,
    size: int,
)
    requires
        stream.plans(plan, blob_length, size),
    ensures
        plan == ReadPlan::Empty <==> size == 0 || stream.position >= blob_length,
        plan is Fetch <==> size != 0 && stream.position < blob_length,
        plan matches ReadPlan::Fetch { start, end } ==> {
            &&& start == stream.offset + stream.position
            &&& size > 0 ==> end - start == vstd::math::min(size, blob_length - stream.position)
            &&& size < 0 ==> end - start == blob_length - stream.position
        },
{
}

/// Two reads one after the other give as many bytes as one of both sizes
/// together, from any position.
pub proof fn law_two_reads_give_what_one_gives<F>(
    stream: StreamView<F>,
    blob_length: nat,
    size1: nat,
    size2: nat,
)
    ensures
        stream.span(blob_length, size1 as int) + stream.at(
            stream.position + stream.span(blob_length, size1 as int),
        ).span(blob_length, size2 as int) == stream.span(blob_length, (size1 + size2) as int),
{
}

/// Reads of one size reach the end of the blob: each moves on while bytes are
/// left.
pub proof fn law_reads_reach_the_end<F>(stream: StreamView<F>, blob_length: nat, size: int)
    requires
        size > 0,
        stream.position < blob_length,
    ensures
        0 < stream.span(blob_length, size) <= blob_length - stream.position,
        stream.span(blob_length, size) < size ==> stream.position + stream.span(blob_length, size)
            == blob_length,
{
}

/// The end of a read moves the position by the bytes that were fetched, and
/// changes nothing else.
pub proof fn law_taken_bytes_move_the_position<F>(stream: StreamView<F>, count: nat)
    requires
        !stream.closed,
    ensures
        stream.taken(count) matches Ok(after) && {
            &&& after.position == stream.position + count
            &&& after.offset == stream.offset
            &&& after.length == stream.length
            &&& after.uri == stream.uri
            &&& after.file_io == stream.file_io
            &&& !after.closed
        },
{
}

/// A number of 64 bits read with a sign differs from itself by a multiple of
/// 2 to the 64, and lies in the signed range.
pub proof fn law_signed_reading(n: u64)
    ensures
        n <= 0x7fff_ffff_ffff_ffff ==> crate::blob_stream::as_signed(n as nat) == n,
        n > 0x7fff_ffff_ffff_ffff ==> crate::blob_stream::as_signed(n as nat) == n
            - 0x1_0000_0000_0000_0000,
{
}

/// Whether a seek of `stream` to `target` ended in `result`: it is refused
/// where the target is no signed 64-bit number or is negative, and else
/// changes the position alone.
pub open spec fn reaches<F>(
    stream: StreamView<F>,
    target: int,
    result: Result<StreamView<F>, BlobStreamError>,
) -> bool {
    match result {
        Ok(after) => {
            &&& 0 <= target <= 0x7fff_ffff_ffff_ffff
            &&& after.position == target
            &&& after.offset == stream.offset
            &&& after.length == stream.length
            &&& after.uri == stream.uri
            &&& after.file_io == stream.file_io
            &&& after.closed == stream.closed
        },
        Err(BlobStreamError::NegativeSeek(position)) => {
            &&& -0x8000_0000_0000_0000 <= target < 0
            &&& position == target
        },
        Err(BlobStreamError::SeekOverflow) => target < -0x8000_0000_0000_0000 || target
            > 0x7fff_ffff_ffff_ffff,
        Err(_) => false,
    }
}

/// A seek from the beginning of an open stream goes to `pos`, one from the
/// position that far from it, and one from the end that far from the length.
pub proof fn law_where_seeks_go<F>(stream: StreamView<F>, pos: i64)
    requires
        !stream.closed,
    ensures
        stream.sought(pos, 0) matches Ok(Some(after)) ==> reaches(stream, pos as int, Ok(after)),
        stream.sought(pos, 0) matches Err(error) ==> reaches(stream, pos as int, Err(error)),
        stream.sought(pos, 0) !== Ok(None),
        stream.position <= i64::MAX ==> {
            &&& stream.sought(pos, 1) matches Ok(Some(after)) ==> reaches(
                stream,
                stream.position + pos,
                Ok(after),
            )
            &&& stream.sought(pos, 1) matches Err(error) ==> reaches(
                stream,
                stream.position + pos,
                Err(error),
            )
            &&& stream.sought(pos, 1) !== Ok(None)
        },
        stream.length matches Some(length) ==> length <= i64::MAX ==> {
            &&& stream.sought(pos, 2) matches Ok(Some(after)) ==> reaches(
                stream,
                length + pos,
                Ok(after),
            )
            &&& stream.sought(pos, 2) matches Err(error) ==> reaches(
                stream,
                length + pos,
                Err(error),
            )
            &&& stream.sought(pos, 2) !== Ok(None)
        },
        stream.length is None ==> stream.sought(pos, 2) === Ok(None),
{
}

/// A seek that can succeed does: from the beginning, the position or the end
/// of an open stream by any distance whose target is a position.
pub proof fn law_seeks_succeed<F>(stream: StreamView<F>, pos: i64, file_size: nat)
    requires
        !stream.closed,
    ensures
        0 <= pos ==> (stream.sought(pos, 0) matches Ok(Some(after)) && after.position == pos),
        stream.position <= i64::MAX && 0 <= stream.position + pos <= i64::MAX ==> (stream.sought(
            pos,
            1,
        ) matches Ok(Some(after)) && after.position == stream.position + pos),
        stream.length matches Some(length) ==> length <= i64::MAX && 0 <= length + pos <= i64::MAX
            ==> (stream.sought(pos, 2) matches Ok(Some(after)) && after.position == length + pos),
        stream.length is None && stream.offset <= file_size && file_size - stream.offset <= i64::MAX
            && 0 <= file_size - stream.offset + pos <= i64::MAX ==> (stream.sought_in(pos, file_size)
            matches Ok(after) && after.position == file_size - stream.offset + pos),
        stream.length is None && stream.offset > file_size && 0 <= pos ==> (stream.sought_in(
            pos,
            file_size,
        ) matches Ok(after) && after.position == pos),
{
}

/// A seek from the end, or from the position, is a seek from the beginning to
/// the place it names.
pub proof fn law_every_origin_leads_to_the_same_place<F>(stream: StreamView<F>, pos: i64)
    ensures
        stream.length matches Some(length) ==> length <= i64::MAX && i64::MIN <= length + pos
            <= i64::MAX ==> stream.sought(pos, 2) == stream.sought((length + pos) as i64, 0),
        stream.position <= i64::MAX && i64::MIN <= stream.position + pos <= i64::MAX
            ==> stream.sought(pos, 1) == stream.sought((stream.position + pos) as i64, 0),
{
}

/// A position or length beyond the signed numbers counts from below zero.
pub proof fn law_seeks_beyond_the_signed_numbers<F>(stream: StreamView<F>, pos: i64, file_size: nat)
    requires
        !stream.closed,
    ensures
        i64::MAX < stream.position <= u64::MAX ==> {
            &&& stream.sought(pos, 1) matches Ok(Some(after)) ==> reaches(
                stream,
                stream.position - 0x1_0000_0000_0000_0000 + pos,
                Ok(after),
            )
            &&& stream.sought(pos, 1) matches Err(error) ==> reaches(
                stream,
                stream.position - 0x1_0000_0000_0000_0000 + pos,
                Err(error),
            )
            &&& stream.sought(pos, 1) !== Ok(None)
        },
        stream.length is None && stream.offset <= file_size && i64::MAX < file_size - stream.offset
            <= u64::MAX ==> reaches(
            stream,
            file_size - stream.offset - 0x1_0000_0000_0000_0000 + pos,
            stream.sought_in(pos, file_size),
        ),
{
}

/// A seek from the end of a blob that the size of the file decides goes that
/// far from the end of the file, counted from the offset.
pub proof fn law_where_seeks_from_the_file_end_go<F>(
    stream: StreamView<F>,
    pos: i64,
    file_size: nat,
)
    requires
        !stream.closed,
    ensures
        stream.length is None && stream.offset <= file_size && file_size - stream.offset <= i64::MAX
            ==> reaches(
            stream,
            file_size - stream.offset + pos,
            stream.sought_in(pos, file_size),
        ),
        stream.length is None && stream.offset > file_size ==> reaches(
            stream,
            pos as int,
            stream.sought_in(pos, file_size),
        ),
        stream.length matches Some(length) ==> length <= i64::MAX ==> reaches(
            stream,
            length + pos,
            stream.sought_in(pos, file_size),
        ),
{
}

/// A seek whose target is no signed 64-bit number is refused as an overflow,
/// and one whose target is negative with that target.
pub proof fn law_which_seeks_are_refused<F>(stream: StreamView<F>, pos: i64, file_size: nat)
    requires
        !stream.closed,
    ensures
        stream.position <= i64::MAX && stream.position + pos > i64::MAX ==> stream.sought(pos, 1)
            == Err::<Option<StreamView<F>>, BlobStreamError>(BlobStreamError::SeekOverflow),
        stream.position <= i64::MAX && stream.position + pos < 0 ==> stream.sought(pos, 1) == Err::<
            Option<StreamView<F>>,
            BlobStreamError,
        >(BlobStreamError::NegativeSeek((stream.position + pos) as i64)),
        stream.length matches Some(length) ==> length <= i64::MAX ==> {
            &&& length + pos > i64::MAX ==> stream.sought(pos, 2) == Err::<
                Option<StreamView<F>>,
                BlobStreamError,
            >(BlobStreamError::SeekOverflow)
            &&& length + pos < 0 ==> stream.sought(pos, 2) == Err::<
                Option<StreamView<F>>,
                BlobStreamError,
            >(BlobStreamError::NegativeSeek((length + pos) as i64))
        },
        stream.length is None && stream.offset <= file_size && file_size - stream.offset <= i64::MAX
            ==> {
            let target = file_size - stream.offset + pos;
            &&& target > i64::MAX ==> stream.sought_in(pos, file_size) == Err::<
                StreamView<F>,
                BlobStreamError,
            >(BlobStreamError::SeekOverflow)
            &&& target < 0 ==> stream.sought_in(pos, file_size) == Err::<
                StreamView<F>,
                BlobStreamError,
            >(BlobStreamError::NegativeSeek(target as i64))
        },
{
}

/// An origin other than the beginning, the position and the end is refused,
/// and no other seek is refused for its origin.
pub proof fn law_unknown_origins_are_refused<F>(stream: StreamView<F>, pos: i64, whence: i32)
    requires
        !stream.closed,
    ensures
        whence != 0 && whence != 1 && whence != 2 ==> stream.sought(pos, whence) == Err::<
            Option<StreamView<F>>,
            BlobStreamError,
        >(BlobStreamError::InvalidWhence(whence)),
        stream.sought(pos, whence) matches Err(BlobStreamError::InvalidWhence(_)) ==> whence != 0
            && whence != 1 && whence != 2,
{
}

/// The messages of the errors.
pub proof fn law_stream_messages(n: i64, whence: i32)
    ensures
        BlobStreamError::NegativeOffset(n).text() == "BlobDescriptor has negative offset: "@
            + crate::text::signed_decimal(n as int),
        BlobStreamError::InvalidLength(n).text() == "BlobDescriptor has invalid length: "@
            + crate::text::signed_decimal(n as int),
        BlobStreamError::NegativeSeek(n).text() == "Negative seek position: "@
            + crate::text::signed_decimal(n as int),
        BlobStreamError::InvalidWhence(whence).text() == "Invalid whence: "@
            + crate::text::signed_decimal(whence as int),
        BlobStreamError::SeekOverflow.text() == "Seek position overflow"@,
        BlobStreamError::Closed.text() == "I/O operation on closed file."@,
{
}

/// A read through a file gives the bytes of the blob in order: the byte at
/// each place is that of the file at the offset, the position and the place.
pub proof fn law_read_gives_the_bytes_of_the_file<F>(
    stream: StreamView<F>,
    file: Seq<u8>,
    size: int,
    k: int,
)
    requires
        stream.offset + stream.blob_length(file.len()) <= file.len(),
        0 <= k < stream.chunk(file, size).len(),
    ensures
        stream.chunk(file, size)[k] == file[stream.offset + stream.position + k],
        size != 0,
        size > 0 ==> stream.chunk(file, size).len() == vstd::math::min(
            size,
            stream.blob_length(file.len()) - stream.position,
        ),
        size < 0 ==> stream.chunk(file, size).len() == stream.blob_length(file.len())
            - stream.position,
{
}

} // verus!
