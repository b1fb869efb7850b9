//! The scheme layer: URI-addressed resources and the message-style
//! request convention shared by user schemes and the kernel.
//!
//! A request crosses the boundary as a small word buffer. `Args` reads
//! typed values back out of such a buffer in order, as the receiving side
//! does; here the buffer is plain bytes and every read is bounds-checked.

use vstd::prelude::*;

verus! {

/// Errors a scheme operation can surface to its caller.
#[derive(Clone, Copy, Debug, PartialEq, Eq, Structural)]
pub enum Error {
    NotFound,
    Other,
}

/// The request kinds of the scheme protocol, in wire order.
#[derive(Clone, Copy, Debug, PartialEq, Eq, Structural)]
pub enum SchemeRequest {
    Register,
    Open,
    Close,
    FStat,
    LSeek,
    Read,
    Write,
}

/// Where a seek offset counts from.
#[derive(Clone, Copy, Debug, PartialEq, Eq, Structural)]
pub enum Whence {
    SeekSet,
    Cur,
    End,
}

/// Access mode requested on open.
#[derive(Clone, Copy, Debug, PartialEq, Eq, Structural)]
pub enum Mode {
    ReadOnly,
    WriteOnly,
    ReadWrite,
}

/// The wire tag of a request kind.
pub open spec fn spec_scheme_request_tag(r: SchemeRequest) -> int {
    match r {
        SchemeRequest::Register => 0,
        SchemeRequest::Open => 1,
        SchemeRequest::Close => 2,
        SchemeRequest::FStat => 3,
        SchemeRequest::LSeek => 4,
        SchemeRequest::Read => 5,
        SchemeRequest::Write => 6,
    }
}

/// Decode a wire tag; tags outside the protocol are rejected rather than
/// reinterpreted.
pub fn decode_scheme_request(tag: usize) -> (r: Option<SchemeRequest>)
    ensures
        match r {
            Some(k) => spec_scheme_request_tag(k) == tag,
            None => tag > 6,
        },
{
    match tag {
        0 => Some(SchemeRequest::Register),
        1 => Some(SchemeRequest::Open),
        2 => Some(SchemeRequest::Close),
        3 => Some(SchemeRequest::FStat),
        4 => Some(SchemeRequest::LSeek),
        5 => Some(SchemeRequest::Read),
        6 => Some(SchemeRequest::Write),
        _ => None,
    }
}

/// The wire tag of an access mode.
pub open spec fn spec_mode_tag(m: Mode) -> int {
    match m {
        Mode::ReadOnly => 0,
        Mode::WriteOnly => 1,
        Mode::ReadWrite => 2,
    }
}

/// Decode an access-mode tag.
pub fn decode_mode(tag: usize) -> (r: Option<Mode>)
    ensures
        match r {
            Some(m) => spec_mode_tag(m) == tag,
            None => tag > 2,
        },
{
    match tag {
        0 => Some(Mode::ReadOnly),
        1 => Some(Mode::WriteOnly),
        2 => Some(Mode::ReadWrite),
        _ => None,
    }
}

/// A handle to an open resource.
#[derive(Clone, Copy, Debug, PartialEq, Eq, Structural)]
pub struct Resource(pub usize);

impl Resource {
    /// Release the handle. The scheme server behind it is a collaborator
    /// outside this core, which reserves the protocol word and reports
    /// the operation as unavailable.
    pub fn close(self) -> (r: Result<(), Error>)
        ensures
            r == Err::<(), Error>(Error::Other),
    {
        Err(Error::Other)
    }

    /// Query the resource. Reserved like `close`.
    pub fn stat(&self) -> (r: Result<(), Error>)
        ensures
            r == Err::<(), Error>(Error::Other),
    {
        Err(Error::Other)
    }

    /// Reposition the resource. Reserved like `close`.
    pub fn lseek(&self, offset: isize, whence: Whence) -> (r: Result<(), Error>)
        ensures
            r == Err::<(), Error>(Error::Other),
    {
        let _ = offset;
        let _ = whence;
        Err(Error::Other)
    }
}

/// One decoded scheme request, as a scheme server reads it back out of
/// the five-word message. Buffer addresses cross as plain words; sizes
/// ride beside them.
#[derive(Clone, Copy, Debug, PartialEq, Eq, Structural)]
pub enum SchemeCall {
    Open { uri: usize, uri_len: usize, flags: usize, mode: Mode },
    Close { fd: Resource },
    FStat { fd: Resource },
    LSeek { fd: Resource, offset: usize, whence: usize },
    Read { fd: Resource, buf: usize, len: usize },
    Write { fd: Resource, buf: usize, len: usize },
}

/// Decode a five-word scheme message into a typed request, as the
/// server's dispatch loop does. A request to register, an unknown kind,
/// or a bad mode tag is refused rather than reinterpreted.
pub fn handle_user_scheme_request(args: &Vec<usize>) -> (r: Result<SchemeCall, Error>)
    requires
        args@.len() == 5,
    ensures
        match r {
            Ok(call) => match call {
                SchemeCall::Open { uri, uri_len, flags, mode } => {
                    &&& args@[0] == 1
                    &&& uri == args@[1]
                    &&& uri_len == args@[2]
                    &&& flags == args@[3]
                    &&& spec_mode_tag(mode) == args@[4]
                },
                SchemeCall::Close { fd } => args@[0] == 2 && fd.0 == args@[1],
                SchemeCall::FStat { fd } => args@[0] == 3 && fd.0 == args@[1],
                SchemeCall::LSeek { fd, offset, whence } => args@[0] == 4 && fd.0 == args@[1]
                    && offset == args@[2] && whence == args@[3],
                SchemeCall::Read { fd, buf, len } => args@[0] == 5 && fd.0 == args@[1] && buf
                    == args@[2] && len == args@[3],
                SchemeCall::Write { fd, buf, len } => args@[0] == 6 && fd.0 == args@[1] && buf
                    == args@[2] && len == args@[3],
            },
            Err(e) => e == Error::Other && (args@[0] == 0 || args@[0] > 6 || (args@[0] == 1
                && args@[4] > 2)),
        },
{
    let kind = match decode_scheme_request(args[0]) {
        Some(k) => k,
        None => {
            return Err(Error::Other);
        },
    };
    match kind {
        SchemeRequest::Register => Err(Error::Other),
        SchemeRequest::Open => {
            let mode = match decode_mode(args[4]) {
                Some(m) => m,
                None => {
                    return Err(Error::Other);
                },
            };
            Ok(SchemeCall::Open { uri: args[1], uri_len: args[2], flags: args[3], mode })
        },
        SchemeRequest::Close => Ok(SchemeCall::Close { fd: Resource(args[1]) }),
        SchemeRequest::FStat => Ok(SchemeCall::FStat { fd: Resource(args[1]) }),
        SchemeRequest::LSeek => Ok(
            SchemeCall::LSeek { fd: Resource(args[1]), offset: args[2], whence: args[3] },
        ),
        SchemeRequest::Read => Ok(
            SchemeCall::Read { fd: Resource(args[1]), buf: args[2], len: args[3] },
        ),
        SchemeRequest::Write => Ok(
            SchemeCall::Write { fd: Resource(args[1]), buf: args[2], len: args[3] },
        ),
    }
}

/// A scheme's registry id.
#[derive(Clone, Copy, Debug, PartialEq, Eq, Structural)]
pub struct SchemeId(pub usize);

/// What a scheme server implements: the resource operations behind one
/// URI namespace. Implementations live with their servers, in kernel
/// modules or user processes; the dispatch layer only routes to them, so
/// the trait carries no contracts of its own. Buffers cross as handle
/// and length words, as on the wire.
pub trait SchemeServer {
    fn name(&self) -> Vec<u8>;

    fn open(&mut self, uri: usize, uri_len: usize, flags: usize, mode: Mode) -> Result<
        Resource,
        Error,
    >;

    fn close(&mut self, fd: Resource) -> Result<(), Error>;

    fn read(&mut self, fd: Resource, buf: usize, len: usize) -> Result<usize, Error>;

    fn write(&mut self, fd: Resource, buf: usize, len: usize) -> Result<(), Error>;
}

/// Hands out resource handles, counting up from one.
pub struct ResourceAllocator {
    pub next: usize,
}

impl ResourceAllocator {
    pub fn new() -> (r: ResourceAllocator)
        ensures
            r.next == 1,
    {
        ResourceAllocator { next: 1 }
    }

    /// The next unused handle; handles are never reissued.
    pub fn allocate_resource(&mut self) -> (r: Resource)
        requires
            old(self).next < usize::MAX,
        ensures
            r.0 == old(self).next,
            final(self).next == old(self).next + 1,
    {
        let r = Resource(self.next);
        self.next = self.next + 1;
        r
    }
}

/// An argument buffer being read back into typed values: a byte buffer
/// and a cursor, advanced by each read.
pub struct Args {
    pub buf: Vec<u8>,
    pub index: usize,
}

/// The little-endian value of eight bytes starting at `i`.
pub open spec fn spec_le64(b: Seq<u8>, i: int) -> int {
    b[i] + b[i + 1] * 0x100 + b[i + 2] * 0x1_0000 + b[i + 3] * 0x100_0000 + b[i + 4]
        * 0x1_0000_0000 + b[i + 5] * 0x100_0000_0000 + b[i + 6] * 0x1_0000_0000_0000 + b[i + 7]
        * 0x100_0000_0000_0000
}

impl Args {
    /// Begin reading a buffer from its start.
    pub fn from(buf: Vec<u8>) -> (r: Args)
        ensures
            r.buf@ == buf@,
            r.index == 0,
    {
        Args { buf, index: 0 }
    }

    /// Read the next word: eight little-endian bytes, cursor aligned up
    /// to a word boundary first. Running off the end is reported, not
    /// read past.
    pub fn get(&mut self) -> (r: Option<u64>)
        ensures
            final(self).buf@ == old(self).buf@,
            match r {
                Some(v) => {
                    &&& old(self).index + 15 <= usize::MAX
                    &&& final(self).index > old(self).index
                    &&& final(self).index <= old(self).buf@.len()
                    &&& v == spec_le64(old(self).buf@, final(self).index - 8)
                },
                None => final(self).index == old(self).index,
            },
    {
        if self.index > usize::MAX - 15 {
            return None;
        }
        let aligned = (self.index + 7) / 8 * 8;
        if aligned > self.buf.len() || self.buf.len() - aligned < 8 {
            return None;
        }
        let b0 = self.buf[aligned] as u64;
        let b1 = self.buf[aligned + 1] as u64;
        let b2 = self.buf[aligned + 2] as u64;
        let b3 = self.buf[aligned + 3] as u64;
        let b4 = self.buf[aligned + 4] as u64;
        let b5 = self.buf[aligned + 5] as u64;
        let b6 = self.buf[aligned + 6] as u64;
        let b7 = self.buf[aligned + 7] as u64;
        let v = b0 + b1 * 0x100 + b2 * 0x1_0000 + b3 * 0x100_0000 + b4 * 0x1_0000_0000 + b5
            * 0x100_0000_0000 + b6 * 0x1_0000_0000_0000 + b7 * 0x100_0000_0000_0000;
        self.index = aligned + 8;
        proof {
            assert(aligned >= old(self).index);
        }
        Some(v)
    }
}

} // verus!
