//! Reading a blob as a seekable stream.

use crate::blob_descriptor::BlobDescriptor;
use crate::blob_reader::BlobReaderRegistry;
use crate::text::{joined, signed_text};
use vstd::prelude::*;
use vstd::string::*;

verus! {

/// Why a stream cannot be opened, read or moved.
#[derive(Debug, Clone, Copy, PartialEq, Eq, Structural)]
pub enum BlobStreamError {
    /// The descriptor has this negative offset.
    NegativeOffset(i64),
    /// The descriptor has this length, which is below -1.
    InvalidLength(i64),
    /// The stream is closed.
    Closed,
    /// A seek names this origin, which there is not.
    InvalidWhence(i32),
    /// The target of a seek is no 64-bit number.
    SeekOverflow,
    /// The target of a seek is this negative position.
    NegativeSeek(i64),
}

impl BlobStreamError {
    /// The text of the message.
    pub open spec fn text(self) -> Seq<char> {
        match self {
            BlobStreamError::NegativeOffset(offset) => "BlobDescriptor has negative offset: "@
                + crate::text::signed_decimal(offset as int),
            BlobStreamError::InvalidLength(length) => "BlobDescriptor has invalid length: "@
                + crate::text::signed_decimal(length as int),
            BlobStreamError::Closed => "I/O operation on closed file."@,
            BlobStreamError::InvalidWhence(whence) => "Invalid whence: "@
                + crate::text::signed_decimal(whence as int),
            BlobStreamError::SeekOverflow => "Seek position overflow"@,
            BlobStreamError::NegativeSeek(target) => "Negative seek position: "@
                + crate::text::signed_decimal(target as int),
        }
    }

    /// The message for the user.
    pub fn message(&self) -> (message: String)
        ensures
            message@ == self.text(),
    {
        match self {
            BlobStreamError::NegativeOffset(offset) => joined(
                "BlobDescriptor has negative offset: ",
                signed_text(*offset).as_str(),
            ),
            BlobStreamError::InvalidLength(length) => joined(
                "BlobDescriptor has invalid length: ",
                signed_text(*length).as_str(),
            ),
            BlobStreamError::Closed => "I/O operation on closed file.".to_owned(),
            BlobStreamError::InvalidWhence(whence) => joined(
                "Invalid whence: ",
                signed_text(*whence as i64).as_str(),
            ),
            BlobStreamError::SeekOverflow => "Seek position overflow".to_owned(),
            BlobStreamError::NegativeSeek(target) => joined(
                "Negative seek position: ",
                signed_text(*target).as_str(),
            ),
        }
    }
}

/// `n` read as a 64-bit number in two's complement.
pub open spec fn as_signed(n: nat) -> int {
    if n <= i64::MAX {
        n as int
    } else {
        n - 0x1_0000_0000_0000_0000
    }
}

/// How a read goes on.
#[derive(Debug, Clone, Copy, PartialEq, Eq, Structural)]
pub enum ReadPlan {
    /// The size of the file decides: find it out.
    Stat,
    /// Fetch the bytes of the file from `start` up to `end`.
    Fetch { start: u64, end: u64 },
    /// There is nothing to fetch.
    Empty,
}

/// How a seek goes on.
#[derive(Debug, Clone, Copy, PartialEq, Eq, Structural)]
pub enum SeekStep {
    /// The size of the file decides: find it out.
    Stat,
    /// The stream is at this position.
    Done(u64),
}

/// A stream: the blob, how far it was read, and whether it is closed.
pub struct StreamView<F> {
    pub file_io: F,
    pub uri: Seq<char>,
    pub offset: nat,
    pub length: Option<nat>,
    pub position: nat,
    pub closed: bool,
}

impl<F> StreamView<F> {
    /// The stream that a descriptor opens.
    pub open spec fn opened(
        file_io: F,
        descriptor: crate::blob_descriptor::DescriptorView,
    ) -> Result<StreamView<F>, BlobStreamError> {
        if descriptor.offset < 0 {
            Err(BlobStreamError::NegativeOffset(descriptor.offset))
        } else if descriptor.length < -1 {
            Err(BlobStreamError::InvalidLength(descriptor.length))
        } else {
            Ok(
                StreamView {
                    file_io,
                    uri: descriptor.uri,
                    offset: descriptor.offset as nat,
                    length: if descriptor.length >= 0 {
                        Some(descriptor.length as nat)
                    } else {
                        None
                    },
                    position: 0,
                    closed: false,
                },
            )
        }
    }

    /// The number of bytes of the blob, in a file of `file_size` bytes.
    pub open spec fn blob_length(self, file_size: nat) -> nat {
        match self.length {
            Some(length) => length,
            None => if self.offset <= file_size {
                (file_size - self.offset) as nat
            } else {
                0
            },
        }
    }

    /// How many bytes a read of `size` gives, of a blob of `blob_length`
    /// bytes; a negative size stands for all that are left.
    pub open spec fn span(self, blob_length: nat, size: int) -> nat {
        let remaining: int = if self.position <= blob_length {
            blob_length - self.position
        } else {
            0
        };
        if size < 0 || remaining <= size {
            remaining as nat
        } else {
            size as nat
        }
    }

    /// Whether `plan` fetches just the bytes that a read of `size` gives.
    pub open spec fn plans(self, plan: ReadPlan, blob_length: nat, size: int) -> bool {
        match plan {
            ReadPlan::Stat => false,
            ReadPlan::Fetch { start, end } => {
                &&& self.span(blob_length, size) > 0
                &&& start == self.offset + self.position
                &&& end == start + self.span(blob_length, size)
            },
            ReadPlan::Empty => self.span(blob_length, size) == 0,
        }
    }

    /// The stream at another position.
    pub open spec fn at(self, position: nat) -> StreamView<F> {
        StreamView { position, ..self }
    }

    /// The stream after a seek to `pos` bytes from `base`.
    pub open spec fn moved(self, base: int, pos: int) -> Result<StreamView<F>, BlobStreamError> {
        let target = base + pos;
        if target < i64::MIN || target > i64::MAX {
            Err(BlobStreamError::SeekOverflow)
        } else if target < 0 {
            Err(BlobStreamError::NegativeSeek(target as i64))
        } else {
            Ok(self.at(target as nat))
        }
    }

    /// The stream after a seek from the end, in a file of `file_size` bytes.
    pub open spec fn sought_in(self, pos: i64, file_size: nat) -> Result<
        StreamView<F>,
        BlobStreamError,
    > {
        if self.closed {
            Err(BlobStreamError::Closed)
        } else {
            self.moved(as_signed(self.blob_length(file_size)), pos as int)
        }
    }

    /// The stream after a read that fetched `count` bytes.
    pub open spec fn taken(self, count: nat) -> Result<StreamView<F>, BlobStreamError> {
        if self.closed {
            Err(BlobStreamError::Closed)
        } else {
            Ok(self.at(self.position + count))
        }
    }

    /// The stream after a seek; `None` where the size of the file decides.
    pub open spec fn sought(self, pos: i64, whence: i32) -> Result<
        Option<StreamView<F>>,
        BlobStreamError,
    > {
        if self.closed {
            Err(BlobStreamError::Closed)
        } else if whence == 0 {
            some_stream(self.moved(0, pos as int))
        } else if whence == 1 {
            some_stream(self.moved(as_signed(self.position), pos as int))
        } else if whence == 2 {
            match self.length {
                Some(length) => some_stream(self.moved(as_signed(length), pos as int)),
                None => Ok(None),
            }
        } else {
            Err(BlobStreamError::InvalidWhence(whence))
        }
    }
}

/// A stream that is known, as one that may not be.
pub open spec fn some_stream<F>(result: Result<StreamView<F>, BlobStreamError>) -> Result<
    Option<StreamView<F>>,
    BlobStreamError,
> {
    match result {
        Ok(stream) => Ok(Some(stream)),
        Err(error) => Err(error),
    }
}

/// A blob as a seekable stream of bytes. `F` is the handle through which its
/// file is reached.
#[derive(Debug)]
pub struct BlobInputStream<F> {
    file_io: F,
    uri: String,
    offset: u64,
    length: Option<u64>,
    position: u64,
    closed: bool,
}

impl<F> View for BlobInputStream<F> {
    type V = StreamView<F>;

    closed spec fn view(&self) -> StreamView<F> {
        StreamView {
            file_io: self.file_io,
            uri: self.uri@,
            offset: self.offset as nat,
            length: match self.length {
                Some(length) => Some(length as nat),
                None => None,
            },
            position: self.position as nat,
            closed: self.closed,
        }
    }
}

impl<F> BlobInputStream<F> {
    #[verifier::type_invariant]
    spec fn from_a_descriptor(self) -> bool {
        &&& self.offset <= i64::MAX
        &&& self.length matches Some(length) ==> length <= i64::MAX
    }

    /// Opens the blob of `descriptor`.
    pub fn new(file_io: F, descriptor: BlobDescriptor) -> (stream: Result<Self, BlobStreamError>)
        ensures
            match stream {
                Ok(stream) => StreamView::opened(file_io, descriptor@) == Ok::<
                    StreamView<F>,
                    BlobStreamError,
                >(stream@),
                Err(error) => StreamView::opened(file_io, descriptor@) == Err::<
                    StreamView<F>,
                    BlobStreamError,
                >(error),
            },
            stream is Ok <==> descriptor@.offset >= 0 && descriptor@.length >= -1,
            stream matches Ok(stream) ==> {
                &&& stream@.file_io == file_io
                &&& stream@.uri == descriptor@.uri
                &&& stream@.offset == descriptor@.offset
                &&& stream@.position == 0
                &&& !stream@.closed
                &&& stream@.length is None <==> descriptor@.length == -1
                &&& stream@.length matches Some(length) ==> length == descriptor@.length
            },
    {
        let offset: i64 = descriptor.offset();
        if offset < 0 {
            return Err(BlobStreamError::NegativeOffset(offset));
        }
        let length: i64 = descriptor.length();
        if length < -1 {
            return Err(BlobStreamError::InvalidLength(length));
        }
        Ok(
            BlobInputStream {
                file_io,
                uri: descriptor.uri().to_owned(),
                offset: offset as u64,
                length: if length >= 0 {
                    Some(length as u64)
                } else {
                    None
                },
                position: 0,
                closed: false,
            },
        )
    }

    /// The handle through which the file is reached.
    pub fn file_io(&self) -> (file_io: &F)
        ensures
            *file_io == self@.file_io,
    {
        &self.file_io
    }

    /// The file that holds the blob.
    pub fn uri(&self) -> (uri: &str)
        ensures
            uri@ == self@.uri,
    {
        self.uri.as_str()
    }

    /// Refuses a closed stream.
    pub fn ensure_open(&self) -> (open: Result<(), BlobStreamError>)
        ensures
            open == if self@.closed {
                Err::<(), BlobStreamError>(BlobStreamError::Closed)
            } else {
                Ok(())
            },
    {
        if self.closed {
            Err(BlobStreamError::Closed)
        } else {
            Ok(())
        }
    }

    /// The number of bytes of the blob; `None` where the size of the file
    /// decides.
    pub fn stream_length(&self) -> (length: Option<u64>)
        ensures
            match (length, self@.length) {
                (Some(length), Some(known)) => length == known,
                (None, None) => true,
                _ => false,
            },
    {
        self.length
    }

    /// The number of bytes of the blob, in a file of `file_size` bytes.
    pub fn stream_length_in(&self, file_size: u64) -> (length: u64)
        ensures
            length == self@.blob_length(file_size as nat),
            self@.length matches Some(known) ==> length == known,
            self@.length is None ==> length == vstd::math::max(0, file_size - self@.offset),
    {
        match self.length {
            Some(length) => length,
            None => file_size.saturating_sub(self.offset),
        }
    }

    /// What a read of `size` fetches of a blob of `stream_length` bytes.
    fn plan(&self, stream_length: u64, size: isize) -> (plan: ReadPlan)
        requires
            self.offset + stream_length <= u64::MAX,
        ensures
            self@.plans(plan, stream_length as nat, size as int),
    {
        let remaining: u64 = stream_length.saturating_sub(self.position);
        if remaining == 0 || size == 0 {
            return ReadPlan::Empty;
        }
        let to_read: u64 = if size < 0 || remaining <= size as u64 {
            remaining
        } else {
            size as u64
        };
        let start: u64 = self.offset + self.position;
        ReadPlan::Fetch { start, end: start + to_read }
    }

    /// Starts a read of at most `size` bytes, or of all that are left where
    /// `size` is negative.
    pub fn read_bytes(&self, size: isize) -> (plan: Result<ReadPlan, BlobStreamError>)
        ensures
            match plan {
                Err(error) => self@.closed && error == BlobStreamError::Closed,
                Ok(plan) => !self@.closed && match self@.length {
                    Some(length) => self@.plans(plan, length, size as int),
                    None => plan == ReadPlan::Stat,
                },
            },
            self@.length matches Some(length) ==> !self@.closed ==> {
                &&& plan == Ok::<ReadPlan, BlobStreamError>(ReadPlan::Empty) <==> size == 0
                    || self@.position >= length
                &&& plan matches Ok(ReadPlan::Fetch { start, end }) ==> {
                    &&& start == self@.offset + self@.position
                    &&& size > 0 ==> end - start == vstd::math::min(
                        size as int,
                        length - self@.position,
                    )
                    &&& size < 0 ==> end - start == length - self@.position
                }
            },
    {
        proof {
            use_type_invariant(self);
        }
        if let Err(error) = self.ensure_open() {
            return Err(error);
        }
        match self.stream_length() {
            Some(length) => Ok(self.plan(length, size)),
            None => Ok(ReadPlan::Stat),
        }
    }

    /// Goes on with a read, now that the size of the file is known.
    pub fn read_bytes_in(&self, size: isize, file_size: u64) -> (plan: Result<
        ReadPlan,
        BlobStreamError,
    >)
        ensures
            match plan {
                Err(error) => self@.closed && error == BlobStreamError::Closed,
                Ok(plan) => !self@.closed && self@.plans(
                    plan,
                    self@.blob_length(file_size as nat),
                    size as int,
                ),
            },
            plan matches Ok(ReadPlan::Fetch { start, end }) ==> {
                &&& start == self@.offset + self@.position
                &&& size > 0 ==> end - start <= size
                &&& size < 0 || end - start < size ==> end == self@.offset + self@.blob_length(
                    file_size as nat,
                )
            },
            plan == Ok::<ReadPlan, BlobStreamError>(ReadPlan::Empty) ==> size == 0
                || self@.position >= self@.blob_length(file_size as nat),
    {
        proof {
            use_type_invariant(self);
        }
        if let Err(error) = self.ensure_open() {
            return Err(error);
        }
        Ok(self.plan(self.stream_length_in(file_size), size))
    }

    /// Ends a read with the bytes that were fetched.
    pub fn take_bytes(&mut self, bytes: Vec<u8>) -> (taken: Result<Vec<u8>, BlobStreamError>)
        requires
            old(self)@.closed || old(self)@.position + bytes@.len() <= u64::MAX,
        ensures
            match old(self)@.taken(bytes@.len()) {
                Ok(stream) => taken == Ok::<Vec<u8>, BlobStreamError>(bytes) && final(self)@
                    == stream,
                Err(error) => taken == Err::<Vec<u8>, BlobStreamError>(error) && *final(self)
                    == *old(self),
            },
            taken is Ok <==> !old(self)@.closed,
            taken matches Ok(given) ==> given@ == bytes@ && final(self)@.position == old(
                self,
            )@.position + bytes@.len(),
    {
        proof {
            use_type_invariant(&*self);
        }
        if let Err(error) = self.ensure_open() {
            return Err(error);
        }
        let count: u64 = bytes.len() as u64;
        self.position = self.position + count;
        Ok(bytes)
    }

    /// Moves to `pos` bytes from `base`.
    fn move_to(&mut self, base: i64, pos: i64) -> (result: Result<u64, BlobStreamError>)
        ensures
            match old(self)@.moved(base as int, pos as int) {
                Ok(stream) => result matches Ok(position) && position == stream.position
                    && final(self)@ == stream,
                Err(error) => result == Err::<u64, BlobStreamError>(error) && *final(self) == *old(
                    self,
                ),
            },
    {
        proof {
            use_type_invariant(&*self);
        }
        match base.checked_add(pos) {
            None => Err(BlobStreamError::SeekOverflow),
            Some(target) => {
                if target < 0 {
                    Err(BlobStreamError::NegativeSeek(target))
                } else {
                    self.position = target as u64;
                    Ok(self.position)
                }
            },
        }
    }

    /// Starts a seek to `pos` bytes from the beginning, the position or the
    /// end of the stream, as `whence` is 0, 1 or 2.
    pub fn seek(&mut self, pos: i64, whence: i32) -> (step: Result<SeekStep, BlobStreamError>)
        ensures
            match old(self)@.sought(pos, whence) {
                Ok(Some(stream)) => step matches Ok(SeekStep::Done(position)) && position
                    == stream.position && final(self)@ == stream,
                Ok(None) => step == Ok::<SeekStep, BlobStreamError>(SeekStep::Stat)
                    && *final(self) == *old(self),
                Err(error) => step == Err::<SeekStep, BlobStreamError>(error) && *final(self)
                    == *old(self),
            },
            step matches Ok(SeekStep::Done(position)) ==> {
                &&& final(self)@.position == position
                &&& whence == 0 ==> position == pos
                &&& whence == 1 && old(self)@.position <= i64::MAX ==> position == old(
                    self,
                )@.position + pos
                &&& whence == 2 ==> (old(self)@.length matches Some(length) && position == length
                    + pos)
            },
            !old(self)@.closed && whence == 2 ==> (old(self)@.length matches Some(length) ==> 0
                <= length + pos <= i64::MAX ==> step matches Ok(SeekStep::Done(_))),
    {
        proof {
            use_type_invariant(&*self);
        }
        if let Err(error) = self.ensure_open() {
            return Err(error);
        }
        let base: i64 = if whence == 0 {
            0
        } else if whence == 1 {
            signed(self.position)
        } else if whence == 2 {
            match self.stream_length() {
                Some(length) => signed(length),
                None => {
                    return Ok(SeekStep::Stat);
                },
            }
        } else {
            return Err(BlobStreamError::InvalidWhence(whence));
        };
        match self.move_to(base, pos) {
            Ok(position) => Ok(SeekStep::Done(position)),
            Err(error) => Err(error),
        }
    }

    /// Goes on with a seek from the end, now that the size of the file is
    /// known.
    pub fn seek_in(&mut self, pos: i64, file_size: u64) -> (result: Result<u64, BlobStreamError>)
        ensures
            match old(self)@.sought_in(pos, file_size as nat) {
                Ok(stream) => result matches Ok(position) && position == stream.position
                    && final(self)@ == stream,
                Err(error) => result == Err::<u64, BlobStreamError>(error) && *final(self) == *old(
                    self,
                ),
            },
            result matches Ok(position) ==> {
                &&& final(self)@.position == position
                &&& old(self)@.length matches Some(length) ==> position == length + pos
                &&& old(self)@.length is None && old(self)@.offset <= file_size && file_size - old(
                    self,
                )@.offset <= i64::MAX ==> position == file_size - old(self)@.offset + pos
                &&& old(self)@.length is None && old(self)@.offset > file_size ==> position == pos
            },
    {
        proof {
            use_type_invariant(&*self);
        }
        if let Err(error) = self.ensure_open() {
            return Err(error);
        }
        let base: i64 = signed(self.stream_length_in(file_size));
        self.move_to(base, pos)
    }

    /// The position of the stream.
    pub fn tell(&self) -> (position: u64)
        ensures
            position == self@.position,
    {
        self.position
    }

    /// Whether the stream is closed.
    pub fn closed(&self) -> (closed: bool)
        ensures
            closed == self@.closed,
    {
        self.closed
    }

    /// Closes the stream.
    pub fn close(&mut self)
        ensures
            final(self)@ == (StreamView { closed: true, ..old(self)@ }),
    {
        proof {
            use_type_invariant(&*self);
        }
        self.closed = true;
    }

    /// Leaves a `with` block: closes the stream and lets an exception pass.
    pub fn exit(&mut self) -> (suppress: bool)
        ensures
            !suppress,
            final(self)@ == (StreamView { closed: true, ..old(self)@ }),
    {
        self.close();
        false
    }

    /// Streams can be read.
    pub fn readable(&self) -> (readable: bool)
        ensures
            readable,
    {
        true
    }

    /// Streams can be moved.
    pub fn seekable(&self) -> (seekable: bool)
        ensures
            seekable,
    {
        true
    }
}

/// `n` read as a 64-bit number in two's complement.
fn signed(n: u64) -> (m: i64)
    ensures
        m == as_signed(n as nat),
{
    assert(n <= 0x7fff_ffff_ffff_ffffu64 ==> n as i64 == n) by (bit_vector);
    assert(n > 0x7fff_ffff_ffff_ffffu64 ==> n as i64 == n - 0x1_0000_0000_0000_0000)
        by (bit_vector);
    n as i64
}

/// A raw value that may be a blob descriptor, once it was looked at. `E` is a
/// failure to decode one.
pub enum RawValue<E> {
    /// The bytes are no blob descriptor.
    Other,
    /// The bytes are marked as a blob descriptor but do not decode.
    Malformed(E),
    /// The bytes are this blob descriptor.
    Descriptor(BlobDescriptor),
}

/// Why a blob descriptor gives no stream.
pub enum OpenError<E> {
    /// It does not decode.
    Malformed(E),
    /// It describes no stream.
    Invalid(BlobStreamError),
}

impl<F: Clone> BlobReaderRegistry<F> {
    /// Opens the blob that a raw value describes. There is no stream for a
    /// value that is no blob descriptor, or whose URI no handle serves.
    pub fn open_blob_descriptor_stream<E>(&self, value: RawValue<E>) -> (stream: Result<
        Option<BlobInputStream<F>>,
        OpenError<E>,
    >)
        ensures
            match value {
                RawValue::Other => stream == Ok::<Option<BlobInputStream<F>>, OpenError<E>>(None),
                RawValue::Malformed(error) => stream == Err::<
                    Option<BlobInputStream<F>>,
                    OpenError<E>,
                >(OpenError::Malformed(error)),
                RawValue::Descriptor(descriptor) => match crate::blob_reader::resolved(
                    self@,
                    descriptor@.uri,
                ) {
                    None => stream == Ok::<Option<BlobInputStream<F>>, OpenError<E>>(None),
                    Some(registered) => exists|file_io: F| #[trigger]
                        cloned(registered, file_io) && match StreamView::opened(
                            file_io,
                            descriptor@,
                        ) {
                            Ok(opened) => stream matches Ok(Some(stream)) && stream@ == opened,
                            Err(error) => stream == Err::<
                                Option<BlobInputStream<F>>,
                                OpenError<E>,
                            >(OpenError::Invalid(error)),
                        },
                },
            },
    {
        match value {
            RawValue::Other => Ok(None),
            RawValue::Malformed(error) => Err(OpenError::Malformed(error)),
            RawValue::Descriptor(descriptor) => match self.resolve(descriptor.uri()) {
                None => Ok(None),
                Some(file_io) => match BlobInputStream::new(file_io, descriptor) {
                    Ok(stream) => Ok(Some(stream)),
                    Err(error) => Err(OpenError::Invalid(error)),
                },
            },
        }
    }
}

/// The bytes that a plan fetches from `file`.
pub open spec fn fetched(plan: ReadPlan, file: Seq<u8>) -> Seq<u8> {
    match plan {
        ReadPlan::Fetch { start, end } => file.subrange(start as int, end as int),
        _ => Seq::empty(),
    }
}

impl<F> StreamView<F> {
    /// The bytes that a read of `size` gives, in `file`.
    pub open spec fn chunk(self, file: Seq<u8>, size: int) -> Seq<u8> {
        let span = self.span(self.blob_length(file.len()), size);
        if span == 0 {
            Seq::empty()
        } else {
            file.subrange(
                (self.offset + self.position) as int,
                (self.offset + self.position + span) as int,
            )
        }
    }

    /// The bytes that reads of these sizes give one after the other, and the
    /// stream after them.
    pub open spec fn read_through(self, file: Seq<u8>, sizes: Seq<int>) -> (Seq<u8>, StreamView<F>)
        decreases sizes.len(),
    {
        if sizes.len() == 0 {
            (Seq::empty(), self)
        } else {
            let bytes = self.chunk(file, sizes[0]);
            let rest = self.at(self.position + bytes.len()).read_through(file, sizes.drop_first());
            (bytes + rest.0, rest.1)
        }
    }

    /// Whether the blob lies within `file`.
    pub open spec fn within(self, file: Seq<u8>) -> bool {
        self.offset + self.blob_length(file.len()) <= file.len()
    }
}

/// A read fetches only bytes of the blob, at most as many as were asked for.
pub proof fn law_fetch_stays_in_the_blob<F>(
    stream: StreamView<F>,
    plan: ReadPlan,
    blob_length: nat,
    size: int,
)
    requires
        stream.plans(plan, blob_length, size),
    ensures
        plan matches ReadPlan::Fetch { start, end } ==> {
            &&& stream.offset <= start < end <= stream.offset + blob_length
            &&& size >= 0 ==> end - start <= size
        },
{
}

/// A read without a limit fetches all that is left of the blob, which is
/// nothing at or past its end, and leaves nothing for later reads.
pub proof fn law_unlimited_read_takes_the_rest<F>(
    stream: StreamView<F>,
    plan: ReadPlan,
    blob_length: nat,
    size: int,
    later: ReadPlan,
    later_size: int,
)
    requires
        size < 0,
        stream.plans(plan, blob_length, size),
        stream.at(stream.position + stream.span(blob_length, size)).plans(
            later,
            blob_length,
            later_size,
        ),
    ensures
        stream.position < blob_length ==> (plan matches ReadPlan::Fetch { start, end } && start
            == stream.offset + stream.position && end == stream.offset + blob_length),
        stream.position >= blob_length ==> plan == ReadPlan::Empty,
        later == ReadPlan::Empty,
{
}

/// A read goes on where the one before it ended, and in the same place where
/// that one had nothing to fetch.
pub proof fn law_reads_follow_each_other<F>(
    stream: StreamView<F>,
    blob_length: nat,
    first: ReadPlan,
    first_size: int,
    second: ReadPlan,
    second_size: int,
)
    requires
        stream.plans(first, blob_length, first_size),
        stream.at(stream.position + stream.span(blob_length, first_size)).plans(
            second,
            blob_length,
            second_size,
        ),
    ensures
        second is Fetch ==> second->start == if first is Fetch {
            first->end as nat
        } else {
            stream.offset + stream.position
        },
{
}

/// What a plan fetches is what the read gives.
pub proof fn law_plan_fetches_the_chunk<F>(
    stream: StreamView<F>,
    plan: ReadPlan,
    file: Seq<u8>,
    size: int,
)
    requires
        stream.plans(plan, stream.blob_length(file.len()), size),
    ensures
        fetched(plan, file) == stream.chunk(file, size),
{
}

/// Reads of any sizes give, put together, the bytes of the blob from the
/// position before the first to the position after the last. At or past the
/// end of the blob they give nothing and leave the stream as it was.
pub proof fn law_reads_give_the_bytes_of_the_blob<F>(
    stream: StreamView<F>,
    file: Seq<u8>,
    sizes: Seq<int>,
)
    requires
        stream.within(file) || stream.position >= stream.blob_length(file.len()),
    ensures
        ({
            let (bytes, after) = stream.read_through(file, sizes);
            if stream.position >= stream.blob_length(file.len()) {
                bytes == Seq::<u8>::empty() && after == stream
            } else {
                &&& stream.position <= after.position <= stream.blob_length(file.len())
                &&& after == stream.at(after.position)
                &&& bytes == file.subrange(
                    (stream.offset + stream.position) as int,
                    (stream.offset + after.position) as int,
                )
            }
        }),
    decreases sizes.len(),
{
    if sizes.len() > 0 {
        let bytes = stream.chunk(file, sizes[0]);
        let next = stream.at(stream.position + bytes.len());
        law_reads_give_the_bytes_of_the_blob(next, file, sizes.drop_first());
        let (rest, after) = next.read_through(file, sizes.drop_first());
        if stream.position >= stream.blob_length(file.len()) {
            assert(next == stream);
        } else {
            assert(bytes + rest == file.subrange(
                (stream.offset + stream.position) as int,
                (stream.offset + after.position) as int,
            ));
        }
    }
}

/// A blob without a length of its own that starts at or after the end of its
/// file has no bytes.
pub proof fn law_blob_after_the_end_is_empty<F>(stream: StreamView<F>, file: Seq<u8>, size: int)
    requires
        stream.length is None,
        stream.offset >= file.len(),
    ensures
        stream.chunk(file, size) == Seq::<u8>::empty(),
{
}

/// What may be done to a stream.
pub enum StreamCall {
    /// A seek.
    Seek { pos: i64, whence: i32 },
    /// The rest of a seek from the end, in a file of `file_size` bytes.
    SeekIn { pos: i64, file_size: nat },
    /// The end of a read that fetched `count` bytes.
    Take { count: nat },
    /// A close.
    Close,
}

impl<F> StreamView<F> {
    /// The stream after a call. One that is refused leaves it as it was.
    pub open spec fn after(self, call: StreamCall) -> StreamView<F> {
        match call {
            StreamCall::Seek { pos, whence } => match self.sought(pos, whence) {
                Ok(Some(stream)) => stream,
                _ => self,
            },
            StreamCall::SeekIn { pos, file_size } => match self.sought_in(pos, file_size) {
                Ok(stream) => stream,
                Err(_) => self,
            },
            StreamCall::Take { count } => match self.taken(count) {
                Ok(stream) => stream,
                Err(_) => self,
            },
            StreamCall::Close => StreamView { closed: true, ..self },
        }
    }

    /// The stream after calls one after the other.
    pub open spec fn after_all(self, calls: Seq<StreamCall>) -> StreamView<F>
        decreases calls.len(),
    {
        if calls.len() == 0 {
            self
        } else {
            self.after(calls[0]).after_all(calls.drop_first())
        }
    }
}

/// A closed stream refuses every seek and every fetched byte.
pub proof fn law_closed_stream_refuses_to_move<F>(
    stream: StreamView<F>,
    pos: i64,
    whence: i32,
    file_size: nat,
    count: nat,
)
    requires
        stream.closed,
    ensures
        stream.sought(pos, whence) == Err::<Option<StreamView<F>>, BlobStreamError>(
            BlobStreamError::Closed,
        ),
        stream.sought_in(pos, file_size) == Err::<StreamView<F>, BlobStreamError>(
            BlobStreamError::Closed,
        ),
        stream.taken(count) == Err::<StreamView<F>, BlobStreamError>(BlobStreamError::Closed),
{
}

/// Once a stream is closed, no calls change it: it stays closed and keeps its
/// position.
pub proof fn law_closed_stream_keeps_its_position<F>(stream: StreamView<F>, calls: Seq<StreamCall>)
    requires
        stream.closed,
    ensures
        stream.after_all(calls) == stream,
    decreases calls.len(),
{
    if calls.len() > 0 {
        assert(stream.after(calls[0]) == stream);
        law_closed_stream_keeps_its_position(stream, calls.drop_first());
    }
}

/// No calls change which bytes a stream is of.
pub proof fn law_stream_stays_with_its_blob<F>(stream: StreamView<F>, calls: Seq<StreamCall>)
    ensures
        stream.after_all(calls).file_io == stream.file_io,
        stream.after_all(calls).uri == stream.uri,
        stream.after_all(calls).offset == stream.offset,
        stream.after_all(calls).length == stream.length,
    decreases calls.len(),
{
    if calls.len() > 0 {
        law_stream_stays_with_its_blob(stream.after(calls[0]), calls.drop_first());
    }
}

/// A seek from the beginning reaches every position that is not negative, and
/// no other.
pub proof fn law_seek_from_the_beginning<F>(stream: StreamView<F>, pos: i64)
    requires
        !stream.closed,
    ensures
        pos >= 0 ==> stream.sought(pos, 0) == Ok::<Option<StreamView<F>>, BlobStreamError>(
            Some(stream.at(pos as nat)),
        ),
        pos < 0 ==> stream.sought(pos, 0) == Err::<Option<StreamView<F>>, BlobStreamError>(
            BlobStreamError::NegativeSeek(pos),
        ),
{
}

/// A seek by nothing from the position stays.
pub proof fn law_seek_by_nothing_stays<F>(stream: StreamView<F>)
    requires
        !stream.closed,
        stream.position <= i64::MAX,
    ensures
        stream.sought(0, 1) == Ok::<Option<StreamView<F>>, BlobStreamError>(Some(stream)),
{
}

/// Two seeks from the position, of which the first is not refused, do what one
/// by their sum does.
pub proof fn law_seeks_from_the_position_add_up<F>(stream: StreamView<F>, pos1: i64, pos2: i64)
    requires
        i64::MIN <= pos1 + pos2 <= i64::MAX,
    ensures
        stream.sought(pos1, 1) matches Ok(Some(between)) ==> between.sought(pos2, 1)
            == stream.sought((pos1 + pos2) as i64, 1),
{
}

/// After a seek to the end nothing is left to read.
pub proof fn law_nothing_is_left_at_the_end<F>(
    stream: StreamView<F>,
    file_size: nat,
    plan: ReadPlan,
    size: int,
)
    requires
        !stream.closed,
        stream.blob_length(file_size) <= i64::MAX,
    ensures
        stream.sought_in(0, file_size) == Ok::<StreamView<F>, BlobStreamError>(
            stream.at(stream.blob_length(file_size)),
        ),
        stream.length is Some ==> stream.sought(0, 2) == Ok::<
            Option<StreamView<F>>,
            BlobStreamError,
        >(Some(stream.at(stream.blob_length(file_size)))),
        stream.at(stream.blob_length(file_size)).plans(plan, stream.blob_length(file_size), size)
            <==> plan == ReadPlan::Empty,
{
}

/// The plan that fetches all of a blob.
pub open spec fn whole(offset: nat, blob_length: nat) -> ReadPlan {
    if blob_length == 0 {
        ReadPlan::Empty
    } else {
        ReadPlan::Fetch { start: offset as u64, end: (offset + blob_length) as u64 }
    }
}

/// A blob whose URI begins with a registered prefix is opened through the
/// handle of that prefix, and a read without a limit fetches all its bytes:
/// as many as the descriptor says, or those up to the end of the file where
/// it says -1.
pub proof fn law_registered_blob_is_read_whole<F>(
    readers: crate::blob_reader::Readers<F>,
    prefix: Seq<char>,
    file_io: F,
    descriptor: crate::blob_descriptor::DescriptorView,
    file_size: u64,
    plan: ReadPlan,
)
    requires
        prefix.is_prefix_of(descriptor.uri),
        forall|other: Seq<char>| #[trigger]
            readers.contains_key(other) && other.is_prefix_of(descriptor.uri) ==> other.len()
                <= prefix.len(),
        descriptor.offset >= 0,
        descriptor.length >= -1,
    ensures
        crate::blob_reader::resolved(readers.insert(prefix, file_io), descriptor.uri) == Some(
            file_io,
        ),
        StreamView::opened(file_io, descriptor) matches Ok(stream) && {
            let blob_length: nat = if descriptor.length >= 0 {
                descriptor.length as nat
            } else if descriptor.offset <= file_size {
                (file_size - descriptor.offset) as nat
            } else {
                0
            };
            &&& stream.length is None <==> descriptor.length == -1
            &&& stream.blob_length(file_size as nat) == blob_length
            &&& stream.plans(plan, blob_length, -1) <==> plan == whole(
                descriptor.offset as nat,
                blob_length,
            )
        },
{
    crate::blob_reader::law_registered_handle_is_resolved(
        readers,
        prefix,
        file_io,
        descriptor.uri,
    );
}

} // verus!
