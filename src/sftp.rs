//! Enough of the SFTP protocol to keep a client talking: packets are read
//! from the channel as they arrive, uploads and new directories are recorded
//! in the audit log, and nothing touches a real file system.

use vstd::prelude::*;
use crate::audit::{random_uuid, AuditLogAction, MkdirEvent, WriteFileEvent};
use crate::connection::ConnectionState;
use crate::file_system::LsError;
use crate::text::{append_bytes, copy_bytes, sub_bytes};
use std::collections::HashMap;

verus! {

/// The lower-case hexadecimal digit for `n`.
pub open spec fn hex_digit(n: int) -> u8 {
    if n < 10 {
        (48 + n) as u8
    } else {
        (87 + n) as u8
    }
}

/// The `k`-th hexadecimal digit of `v`, most significant first.
pub open spec fn nibble(v: u128, k: int) -> int {
    (v as int / vstd::arithmetic::power2::pow2((4 * (31 - k)) as nat) as int) % 16
}

/// The hyphenated text of a UUID: 32 lower-case hex digits in groups of
/// 8, 4, 4, 4 and 12.
pub open spec fn hyphenated(v: u128) -> Seq<u8> {
    Seq::new(
        36,
        |p: int|
            if p == 8 || p == 13 || p == 18 || p == 23 {
                45u8
            } else {
                let k = if p < 8 {
                    p
                } else if p < 13 {
                    p - 1
                } else if p < 18 {
                    p - 2
                } else if p < 23 {
                    p - 3
                } else {
                    p - 4
                };
                hex_digit(nibble(v, k))
            },
    )
}

/// What uuid's parser makes of a handle.
pub uninterp spec fn uuid_of(b: Seq<u8>) -> Option<u128>;

/// Relies on uuid's `Uuid::hyphenated` and its `Display`: the hyphenated,
/// lower-case text of the identifier.
#[verifier::external_body]
fn uuid_text(v: u128) -> (r: Vec<u8>)
    ensures
        r@ == hyphenated(v),
{
    uuid::Uuid::from_u128(v).hyphenated().to_string().into_bytes()
}

/// Relies on uuid's `Uuid::try_parse_ascii`, which reads back the
/// hyphenated text it writes.
#[verifier::external_body]
fn parse_uuid(b: &[u8]) -> (r: Option<u128>)
    ensures
        r == uuid_of(b@),
        forall|v: u128| b@ == hyphenated(v) ==> r == Some(v),
{
    uuid::Uuid::try_parse_ascii(b).ok().map(|u| u.as_u128())
}

/// The message types of the protocol.
#[derive(Debug, Clone, Copy, PartialEq, Eq, Structural)]
pub enum PacketType {
    Init,
    Version,
    Open,
    Close,
    Read,
    Write,
    Lstat,
    Fstat,
    SetStat,
    FSetStat,
    OpenDir,
    ReadDir,
    Remove,
    Mkdir,
    Rmdir,
    RealPath,
    Stat,
    Rename,
    ReadLink,
    Link,
    Block,
    Unblock,
    Status,
    Handle,
    Data,
    Name,
    Attrs,
    Extended,
    ExtendedReply,
}

/// The number of each message type on the wire.
pub open spec fn type_code(t: PacketType) -> u8 {
    match t {
        PacketType::Init => 1,
        PacketType::Version => 2,
        PacketType::Open => 3,
        PacketType::Close => 4,
        PacketType::Read => 5,
        PacketType::Write => 6,
        PacketType::Lstat => 7,
        PacketType::Fstat => 8,
        PacketType::SetStat => 9,
        PacketType::FSetStat => 10,
        PacketType::OpenDir => 11,
        PacketType::ReadDir => 12,
        PacketType::Remove => 13,
        PacketType::Mkdir => 14,
        PacketType::Rmdir => 15,
        PacketType::RealPath => 16,
        PacketType::Stat => 17,
        PacketType::Rename => 18,
        PacketType::ReadLink => 19,
        PacketType::Link => 21,
        PacketType::Block => 22,
        PacketType::Unblock => 23,
        PacketType::Status => 101,
        PacketType::Handle => 102,
        PacketType::Data => 103,
        PacketType::Name => 104,
        PacketType::Attrs => 105,
        PacketType::Extended => 200,
        PacketType::ExtendedReply => 201,
    }
}

impl PacketType {
    pub fn code(self) -> (r: u8)
        ensures
            r == type_code(self),
    {
        match self {
            PacketType::Init => 1,
            PacketType::Version => 2,
            PacketType::Open => 3,
            PacketType::Close => 4,
            PacketType::Read => 5,
            PacketType::Write => 6,
            PacketType::Lstat => 7,
            PacketType::Fstat => 8,
            PacketType::SetStat => 9,
            PacketType::FSetStat => 10,
            PacketType::OpenDir => 11,
            PacketType::ReadDir => 12,
            PacketType::Remove => 13,
            PacketType::Mkdir => 14,
            PacketType::Rmdir => 15,
            PacketType::RealPath => 16,
            PacketType::Stat => 17,
            PacketType::Rename => 18,
            PacketType::ReadLink => 19,
            PacketType::Link => 21,
            PacketType::Block => 22,
            PacketType::Unblock => 23,
            PacketType::Status => 101,
            PacketType::Handle => 102,
            PacketType::Data => 103,
            PacketType::Name => 104,
            PacketType::Attrs => 105,
            PacketType::Extended => 200,
            PacketType::ExtendedReply => 201,
        }
    }

    /// The message type with this number, if any.
    pub fn from_code(c: u8) -> (r: Option<PacketType>)
        ensures
            match r {
                Some(t) => type_code(t) == c,
                None => forall|t: PacketType| type_code(t) != c,
            },
    {
        if c == 1 {
            Some(PacketType::Init)
        } else if c == 2 {
            Some(PacketType::Version)
        } else if c == 3 {
            Some(PacketType::Open)
        } else if c == 4 {
            Some(PacketType::Close)
        } else if c == 5 {
            Some(PacketType::Read)
        } else if c == 6 {
            Some(PacketType::Write)
        } else if c == 7 {
            Some(PacketType::Lstat)
        } else if c == 8 {
            Some(PacketType::Fstat)
        } else if c == 9 {
            Some(PacketType::SetStat)
        } else if c == 10 {
            Some(PacketType::FSetStat)
        } else if c == 11 {
            Some(PacketType::OpenDir)
        } else if c == 12 {
            Some(PacketType::ReadDir)
        } else if c == 13 {
            Some(PacketType::Remove)
        } else if c == 14 {
            Some(PacketType::Mkdir)
        } else if c == 15 {
            Some(PacketType::Rmdir)
        } else if c == 16 {
            Some(PacketType::RealPath)
        } else if c == 17 {
            Some(PacketType::Stat)
        } else if c == 18 {
            Some(PacketType::Rename)
        } else if c == 19 {
            Some(PacketType::ReadLink)
        } else if c == 21 {
            Some(PacketType::Link)
        } else if c == 22 {
            Some(PacketType::Block)
        } else if c == 23 {
            Some(PacketType::Unblock)
        } else if c == 101 {
            Some(PacketType::Status)
        } else if c == 102 {
            Some(PacketType::Handle)
        } else if c == 103 {
            Some(PacketType::Data)
        } else if c == 104 {
            Some(PacketType::Name)
        } else if c == 105 {
            Some(PacketType::Attrs)
        } else if c == 200 {
            Some(PacketType::Extended)
        } else if c == 201 {
            Some(PacketType::ExtendedReply)
        } else {
            None
        }
    }
}

/// A big-endian 32-bit number as four bytes.
#[verifier::opaque]
pub open spec fn be32(v: u32) -> Seq<u8> {
    seq![(v / 16777216) as u8, ((v / 65536) % 256) as u8, ((v / 256) % 256) as u8, (v % 256) as u8]
}

pub proof fn lemma_be32_len(v: u32)
    ensures
        be32(v).len() == 4,
{
    reveal(be32);
}

/// A name entry takes its two strings and thirteen bytes more.
pub proof fn lemma_name_file_len(name: Seq<u8>, long_name: Seq<u8>, t: FileType)
    ensures
        name_file_bytes(name, long_name, t).len() == name.len() + long_name.len() + 13,
{
    reveal(be32);
}

/// The big-endian 32-bit number at position `i`.
#[verifier::opaque]
pub open spec fn u32_at(s: Seq<u8>, i: int) -> int {
    s[i] * 16777216 + s[i + 1] * 65536 + s[i + 2] * 256 + s[i + 3]
}

/// The big-endian 64-bit number at position `i`.
pub open spec fn u64_at(s: Seq<u8>, i: int) -> int {
    u32_at(s, i) * 4294967296 + u32_at(s, i + 4)
}

fn push_be32(out: &mut Vec<u8>, v: u32)
    ensures
        final(out)@ == old(out)@ + be32(v),
{
    reveal(be32);
    let ghost before = out@;
    out.push((v / 16777216) as u8);
    out.push(((v / 65536) % 256) as u8);
    out.push(((v / 256) % 256) as u8);
    out.push((v % 256) as u8);
    assert(out@ =~= before + be32(v));
}

fn read_u32(s: &[u8], i: usize) -> (r: u32)
    requires
        i + 4 <= s@.len(),
    ensures
        r as int == u32_at(s@, i as int),
{
    reveal(u32_at);
    let a = s[i] as u32;
    let b = s[i + 1] as u32;
    let c = s[i + 2] as u32;
    let d = s[i + 3] as u32;
    assert(a * 16777216 + b * 65536 + c * 256 + d <= 0xffff_ffff) by (nonlinear_arith)
        requires
            a <= 255,
            b <= 255,
            c <= 255,
            d <= 255,
    ;
    a * 16777216 + b * 65536 + c * 256 + d
}

/// The length-prefixed string at `i`, and where it ends.
pub open spec fn string_at(s: Seq<u8>, i: int) -> Option<(Seq<u8>, int)> {
    if 0 <= i && i + 4 <= s.len() && i + 4 + u32_at(s, i) <= s.len() {
        Some((s.subrange(i + 4, i + 4 + u32_at(s, i)), i + 4 + u32_at(s, i)))
    } else {
        None
    }
}

fn read_string(s: &[u8], i: usize) -> (r: Option<(Vec<u8>, usize)>)
    ensures
        match r {
            Some((b, k)) => string_at(s@, i as int) == Some((b@, k as int)),
            None => string_at(s@, i as int) is None,
        },
{
    if i > s.len() || s.len() - i < 4 {
        return None;
    }
    let n = read_u32(s, i) as usize;
    if s.len() - i - 4 < n {
        return None;
    }
    Some((sub_bytes(s, i + 4, i + 4 + n), i + 4 + n))
}

/// An SFTP packet: its type, request id and the bytes after them.
#[derive(Debug)]
pub struct WirePacket {
    pub length: u32,
    pub typ: PacketType,
    pub request_id: u32,
    pub data: Vec<u8>,
}

/// The bytes of a packet: length, type, request id, body.
pub open spec fn packet_bytes(typ: PacketType, request_id: u32, body: Seq<u8>) -> Seq<u8> {
    be32((body.len() + 5) as u32) + seq![type_code(typ)] + be32(request_id) + body
}

impl WirePacket {
    /// A packet whose length counts its type, id and body.
    pub fn new(typ: PacketType, request_id: u32, data: Vec<u8>) -> (r: Self)
        requires
            data@.len() + 5 <= u32::MAX,
        ensures
            r.length == data@.len() + 5,
            r.typ == typ,
            r.request_id == request_id,
            r.data@ == data@,
    {
        WirePacket { length: (data.len() + 5) as u32, typ, request_id, data }
    }

    pub fn to_bytes(&self) -> (r: Vec<u8>)
        requires
            self.length == self.data@.len() + 5,
        ensures
            r@ == packet_bytes(self.typ, self.request_id, self.data@),
    {
        let mut out: Vec<u8> = Vec::new();
        push_be32(&mut out, self.length);
        out.push(self.typ.code());
        push_be32(&mut out, self.request_id);
        append_bytes(&mut out, self.data.as_slice());
        assert(out@ =~= packet_bytes(self.typ, self.request_id, self.data@));
        out
    }
}

/// How the first packet of a buffer reads.
pub enum PacketRead {
    /// Its type, request id, body, and the bytes it takes.
    Packet(PacketType, u32, Seq<u8>, int),
    /// More bytes are needed.
    Incomplete,
    /// The bytes are no packet.
    Bad,
}

/// Reads the packet at the start of `s`.
pub open spec fn read_packet(s: Seq<u8>) -> PacketRead {
    if s.len() < 9 {
        PacketRead::Incomplete
    } else {
        let length = u32_at(s, 0);
        if length < 5 {
            PacketRead::Bad
        } else if s.len() < 4 + length {
            PacketRead::Incomplete
        } else if exists|t: PacketType| type_code(t) == s[4] {
            let t = choose|t: PacketType| type_code(t) == s[4];
            PacketRead::Packet(t, u32_at(s, 5) as u32, s.subrange(9, 4 + length), 4 + length)
        } else {
            PacketRead::Bad
        }
    }
}

/// A packet read from a buffer.
pub enum Parsed {
    Packet(WirePacket, usize),
    Incomplete,
    Bad,
}

impl WirePacket {
    /// Reads the packet at the start of `s`, with the bytes it takes.
    pub fn parse(s: &[u8]) -> (r: Parsed)
        ensures
            match r {
                Parsed::Packet(p, k) => read_packet(s@) == PacketRead::Packet(
                    p.typ,
                    p.request_id,
                    p.data@,
                    k as int,
                ) && p.length == p.data@.len() + 5 && 0 < k <= s@.len(),
                Parsed::Incomplete => read_packet(s@) is Incomplete,
                Parsed::Bad => read_packet(s@) is Bad,
            },
    {
        if s.len() < 9 {
            return Parsed::Incomplete;
        }
        let length = read_u32(s, 0);
        if length < 5 {
            return Parsed::Bad;
        }
        if s.len() - 4 < length as usize {
            return Parsed::Incomplete;
        }
        match PacketType::from_code(s[4]) {
            Some(t) => {
                let request_id = read_u32(s, 5);
                let end = 4 + length as usize;
                let data = sub_bytes(s, 9, end);
                proof {
                    let c = choose|x: PacketType| type_code(x) == s@[4];
                    lemma_type_code_unique(c, t);
                }
                Parsed::Packet(WirePacket { length, typ: t, request_id, data }, end)
            },
            None => Parsed::Bad,
        }
    }
}

/// Each type has its own number.
proof fn lemma_type_code_unique(a: PacketType, b: PacketType)
    requires
        type_code(a) == type_code(b),
    ensures
        a == b,
{
}

/// Status codes of replies.
#[derive(Debug, Clone, Copy, PartialEq, Eq, Structural)]
pub enum StatusCode {
    Success,
    Eof,
    NoSuchFile,
    PermissionDenied,
    Failure,
    BadMessage,
    OpUnsupported,
}

pub open spec fn status_value(c: StatusCode) -> u32 {
    match c {
        StatusCode::Success => 0,
        StatusCode::Eof => 1,
        StatusCode::NoSuchFile => 2,
        StatusCode::PermissionDenied => 3,
        StatusCode::Failure => 4,
        StatusCode::BadMessage => 5,
        StatusCode::OpUnsupported => 8,
    }
}

impl StatusCode {
    pub fn value(self) -> (r: u32)
        ensures
            r == status_value(self),
    {
        match self {
            StatusCode::Success => 0,
            StatusCode::Eof => 1,
            StatusCode::NoSuchFile => 2,
            StatusCode::PermissionDenied => 3,
            StatusCode::Failure => 4,
            StatusCode::BadMessage => 5,
            StatusCode::OpUnsupported => 8,
        }
    }
}

/// File types in attributes.
#[derive(Debug, Clone, Copy, PartialEq, Eq, Structural)]
pub enum FileType {
    Regular,
    Directory,
    Symlink,
    Special,
    Unknown,
}

pub open spec fn file_type_value(t: FileType) -> u8 {
    match t {
        FileType::Regular => 1,
        FileType::Directory => 2,
        FileType::Symlink => 3,
        FileType::Special => 4,
        FileType::Unknown => 5,
    }
}

/// File attributes: no flags, and a type.
#[derive(Debug, Clone, Copy)]
pub struct FileAttrs {
    pub typ: FileType,
}

impl FileAttrs {
    pub fn to_bytes(self) -> (r: Vec<u8>)
        ensures
            r@ == be32(0) + seq![file_type_value(self.typ)],
    {
        let mut out: Vec<u8> = Vec::new();
        push_be32(&mut out, 0);
        let v: u8 = match self.typ {
            FileType::Regular => 1,
            FileType::Directory => 2,
            FileType::Symlink => 3,
            FileType::Special => 4,
            FileType::Unknown => 5,
        };
        out.push(v);
        out
    }
}

/// A length-prefixed string.
pub open spec fn string_bytes(b: Seq<u8>) -> Seq<u8> {
    be32(b.len() as u32) + b
}

fn push_string(out: &mut Vec<u8>, b: &[u8])
    requires
        b@.len() <= u32::MAX,
    ensures
        final(out)@ == old(out)@ + string_bytes(b@),
{
    let ghost before = out@;
    push_be32(out, b.len() as u32);
    append_bytes(out, b);
    assert(out@ =~= before + string_bytes(b@));
}

/// A status reply.
pub struct StatusResponse {
    pub code: StatusCode,
    pub message: Vec<u8>,
}

impl StatusResponse {
    pub fn to_bytes(&self) -> (r: Vec<u8>)
        requires
            self.message@.len() <= u32::MAX,
        ensures
            r@ == be32(status_value(self.code)) + string_bytes(self.message@),
            r@.len() == self.message@.len() + 8,
    {
        proof {
            reveal(be32);
        }
        let mut out: Vec<u8> = Vec::new();
        push_be32(&mut out, self.code.value());
        push_string(&mut out, self.message.as_slice());
        assert(out@ =~= be32(status_value(self.code)) + string_bytes(self.message@));
        out
    }
}

/// A reply naming an open file.
pub struct HandleResponse(pub u128);

impl HandleResponse {
    pub fn to_bytes(&self) -> (r: Vec<u8>)
        ensures
            r@ == be32(36) + hyphenated(self.0),
            r@.len() == 40,
    {
        proof {
            reveal(be32);
        }
        let mut out: Vec<u8> = Vec::new();
        push_be32(&mut out, 36);
        let t = uuid_text(self.0);
        append_bytes(&mut out, t.as_slice());
        out
    }
}

/// One file of a name reply.
pub struct NameResponseFile {
    pub name: Vec<u8>,
    pub long_name: Vec<u8>,
    pub attrs: FileAttrs,
}

pub open spec fn name_file_bytes(name: Seq<u8>, long_name: Seq<u8>, t: FileType) -> Seq<u8> {
    string_bytes(name) + string_bytes(long_name) + be32(0) + seq![file_type_value(t)]
}

impl NameResponseFile {
    pub fn to_bytes(&self) -> (r: Vec<u8>)
        requires
            self.name@.len() <= u32::MAX,
            self.long_name@.len() <= u32::MAX,
        ensures
            r@ == name_file_bytes(self.name@, self.long_name@, self.attrs.typ),
    {
        let mut out: Vec<u8> = Vec::new();
        push_string(&mut out, self.name.as_slice());
        push_string(&mut out, self.long_name.as_slice());
        let a = self.attrs.to_bytes();
        append_bytes(&mut out, a.as_slice());
        assert(out@ =~= name_file_bytes(self.name@, self.long_name@, self.attrs.typ));
        out
    }
}

/// A reply listing names; it ends with one more byte, 1.
pub struct NameResponse {
    pub files: Vec<NameResponseFile>,
}

pub open spec fn name_files_bytes(files: Seq<NameResponseFile>) -> Seq<u8>
    decreases files.len(),
{
    if files.len() == 0 {
        Seq::empty()
    } else {
        name_files_bytes(files.drop_last()) + name_file_bytes(
            files.last().name@,
            files.last().long_name@,
            files.last().attrs.typ,
        )
    }
}

impl NameResponse {
    pub fn to_bytes(&self) -> (r: Vec<u8>)
        requires
            self.files@.len() <= u32::MAX,
            forall|i: int|
                0 <= i < self.files@.len() ==> (#[trigger] self.files@[i]).name@.len() <= u32::MAX
                    && self.files@[i].long_name@.len() <= u32::MAX,
        ensures
            r@ == be32(self.files@.len() as u32) + name_files_bytes(self.files@) + seq![1u8],
    {
        let mut out: Vec<u8> = Vec::new();
        push_be32(&mut out, self.files.len() as u32);
        let mut i: usize = 0;
        assert(self.files@.take(0) =~= Seq::<NameResponseFile>::empty());
        while i < self.files.len()
            invariant
                0 <= i <= self.files@.len(),
                forall|k: int|
                    0 <= k < self.files@.len() ==> (#[trigger] self.files@[k]).name@.len()
                        <= u32::MAX && self.files@[k].long_name@.len() <= u32::MAX,
                out@ == be32(self.files@.len() as u32) + name_files_bytes(self.files@.take(i as int)),
            decreases self.files@.len() - i,
        {
            let b = self.files[i].to_bytes();
            append_bytes(&mut out, b.as_slice());
            assert(self.files@.take(i + 1).drop_last() =~= self.files@.take(i as int));
            i = i + 1;
        }
        assert(self.files@.take(self.files@.len() as int) =~= self.files@);
        out.push(1);
        out
    }
}

/// What a packet leaves in the audit log.
pub enum Recorded {
    Write(Seq<u8>, Seq<u8>),
    Mkdir(Seq<u8>),
}

/// The open files: the path opened under each handle.
pub type Files = Map<u128, Seq<u8>>;

/// The path opened under handle `k`, if any.
pub open spec fn file_of(fs: Files, k: u128) -> Option<Seq<u8>> {
    if fs.contains_key(k) {
        Some(fs[k])
    } else {
        None
    }
}

/// The open files after `k` is opened as `path`.
pub open spec fn with_file(fs: Files, k: u128, path: Seq<u8>) -> Files {
    fs.insert(k, path)
}

/// The open files after `k` is closed.
pub open spec fn without_file(fs: Files, k: u128) -> Files {
    fs.remove(k)
}

/// A status reply packet.
pub open spec fn status_packet(id: u32, code: StatusCode, msg: Seq<u8>) -> Seq<u8> {
    packet_bytes(PacketType::Status, id, be32(status_value(code)) + string_bytes(msg))
}

pub open spec fn no_such_file() -> Seq<u8> {
    LsError::NoSuchFileOrDirectory.text()
}

pub type Effect = Option<(Files, Seq<u8>, Option<Recorded>)>;

/// `Open`: the path is remembered under the fresh handle, which is sent back.
pub open spec fn open_effect(fs: Files, id: u32, body: Seq<u8>, fresh: u128) -> Effect {
    match string_at(body, 0) {
        Some((path, k)) => if k + 8 <= body.len() {
            Some(
                (
                    with_file(fs, fresh, path),
                    packet_bytes(PacketType::Handle, id, be32(36) + hyphenated(fresh)),
                    None,
                ),
            )
        } else {
            None
        },
        None => None,
    }
}

/// `Write`: the data is recorded as written to the path the handle names.
pub open spec fn write_effect(fs: Files, id: u32, body: Seq<u8>) -> Effect {
    match string_at(body, 0) {
        Some((h, k)) => if k + 8 <= body.len() {
            match string_at(body, k + 8) {
                Some((data, _)) => match uuid_of(h) {
                    Some(u) => match file_of(fs, u) {
                        Some(path) => Some(
                            (
                                fs,
                                status_packet(id, StatusCode::Success, Seq::empty()),
                                Some(Recorded::Write(path, data)),
                            ),
                        ),
                        None => None,
                    },
                    None => None,
                },
                None => None,
            }
        } else {
            None
        },
        None => None,
    }
}

/// `Close`: the handle is forgotten.
pub open spec fn close_effect(fs: Files, id: u32, body: Seq<u8>) -> Effect {
    match string_at(body, 0) {
        Some((h, _)) => match uuid_of(h) {
            Some(u) => match file_of(fs, u) {
                Some(_) => Some(
                    (without_file(fs, u), status_packet(id, StatusCode::Success, Seq::empty()), None),
                ),
                None => None,
            },
            None => None,
        },
        None => None,
    }
}

/// `RealPath`: the path as given, or no such file when the client asks for
/// it to exist.
pub open spec fn real_path_effect(fs: Files, id: u32, body: Seq<u8>) -> Effect {
    match string_at(body, 0) {
        Some((path, k)) => if k < body.len() && body[k] == 2 {
            Some((fs, status_packet(id, StatusCode::NoSuchFile, no_such_file()), None))
        } else if 2 * path.len() + 32 <= u32::MAX {
            Some(
                (
                    fs,
                    packet_bytes(
                        PacketType::Name,
                        id,
                        be32(1) + name_file_bytes(path, path, FileType::Unknown) + seq![1u8],
                    ),
                    None,
                ),
            )
        } else {
            None
        },
        None => None,
    }
}

/// A packet that names a path or handle first and is answered with a
/// status alone.
pub open spec fn status_effect(
    fs: Files,
    id: u32,
    body: Seq<u8>,
    code: StatusCode,
    msg: Seq<u8>,
) -> Effect {
    match string_at(body, 0) {
        Some(_) => Some((fs, status_packet(id, code, msg), None)),
        None => None,
    }
}

/// `Mkdir`: the new directory is recorded.
pub open spec fn mkdir_effect(fs: Files, id: u32, body: Seq<u8>) -> Effect {
    match string_at(body, 0) {
        Some((path, _)) => Some(
            (fs, status_packet(id, StatusCode::Success, Seq::empty()), Some(Recorded::Mkdir(path))),
        ),
        None => None,
    }
}

/// What a packet does: the open files after it, the reply, and what it
/// records; `None` for a packet that is skipped without a reply. `fresh` is
/// the identifier an `Open` hands out.
pub open spec fn packet_effect(
    fs: Files,
    t: PacketType,
    id: u32,
    body: Seq<u8>,
    fresh: u128,
) -> Effect {
    match t {
        PacketType::Init => Some(
            (fs, packet_bytes(PacketType::Version, if id < 6 { id } else { 6 }, Seq::empty()), None),
        ),
        PacketType::Stat | PacketType::Lstat => status_effect(
            fs,
            id,
            body,
            StatusCode::NoSuchFile,
            no_such_file(),
        ),
        PacketType::Open => open_effect(fs, id, body, fresh),
        PacketType::SetStat | PacketType::FSetStat => status_effect(
            fs,
            id,
            body,
            StatusCode::Success,
            Seq::empty(),
        ),
        PacketType::Write => write_effect(fs, id, body),
        PacketType::Close => close_effect(fs, id, body),
        PacketType::RealPath => real_path_effect(fs, id, body),
        PacketType::Mkdir => mkdir_effect(fs, id, body),
        _ => None,
    }
}

/// Whether `a` records what `rec` says.
pub open spec fn records(a: AuditLogAction, rec: Recorded) -> bool {
    match rec {
        Recorded::Write(path, content) => a matches AuditLogAction::WriteFile(e) && e.path@ == path
            && e.content@ == content,
        Recorded::Mkdir(path) => a matches AuditLogAction::Mkdir(e) && e.path@ == path,
    }
}

fn empty_text() -> (r: Vec<u8>)
    ensures
        r@ == Seq::<u8>::empty(),
{
    let r: Vec<u8> = Vec::new();
    assert(r@ =~= Seq::<u8>::empty());
    r
}

fn no_such_file_text() -> (r: Vec<u8>)
    ensures
        r@ == no_such_file(),
        r@.len() == 25,
{
    proof {
        reveal_strlit("No such file or directory");
    }
    LsError::NoSuchFileOrDirectory.message()
}

/// The SFTP subsystem of one channel.
pub struct Sftp {
    open_files: HashMap<u128, Vec<u8>>,
    pending_data: Vec<u8>,
}

impl Sftp {
    /// The open files: handle and path.
    pub closed spec fn files(&self) -> Files {
        self.open_files@.map_values(|v: Vec<u8>| v@)
    }

    /// The bytes received that do not yet make a whole packet.
    pub closed spec fn pending(&self) -> Seq<u8> {
        self.pending_data@
    }

    /// No whole packet waits in the pending bytes.
    pub open spec fn wf(&self) -> bool {
        self.pending().len() == 0 || read_packet(self.pending()) is Incomplete
    }

    pub fn new() -> (r: Self)
        ensures
            r.wf(),
            r.files() == Files::empty(),
            r.pending().len() == 0,
    {
        let r = Sftp { open_files: HashMap::new(), pending_data: Vec::new() };
        assert(r.files() =~= Files::empty());
        r
    }

    fn status_reply(out: &mut Vec<u8>, id: u32, code: StatusCode, msg: Vec<u8>)
        requires
            msg@.len() <= 1000,
        ensures
            final(out)@ == old(out)@ + status_packet(id, code, msg@),
    {
        let r = StatusResponse { code, message: msg };
        let body = r.to_bytes();
        let p = WirePacket::new(PacketType::Status, id, body);
        let b = p.to_bytes();
        append_bytes(out, b.as_slice());
    }

    /// Answers one packet, taking `fresh` as the handle an `Open` hands out.
    /// A packet that cannot be answered is skipped.
    pub fn process_packet(
        &mut self,
        connection: &mut ConnectionState,
        packet: &WirePacket,
        fresh: u128,
        out: &mut Vec<u8>,
    ) -> (handled: bool)
        requires
            old(connection).wf(),
        ensures
            final(self).pending() == old(self).pending(),
            final(connection).wf(),
            final(connection).username == old(connection).username,
            final(connection).file_system == old(connection).file_system,
            final(connection).environment == old(connection).environment,
            effect_holds(
                packet_effect(old(self).files(), packet.typ, packet.request_id, packet.data@, fresh),
                handled,
                old(self).files(),
                final(self).files(),
                old(out)@,
                final(out)@,
                old(connection).audit_log.actions(),
                final(connection).audit_log.actions(),
            ),
    {
        let id = packet.request_id;
        let body = packet.data.as_slice();
        match packet.typ {
            PacketType::Init | PacketType::Stat | PacketType::Lstat | PacketType::SetStat
            | PacketType::FSetStat | PacketType::Mkdir => self.simple_packet(
                connection,
                packet.typ,
                body,
                id,
                out,
            ),
            PacketType::Open => self.open_file(body, id, fresh, out),
            PacketType::Write => self.write_file(connection, body, id, out),
            PacketType::Close => self.close_file(body, id, out),
            PacketType::RealPath => self.real_path(body, id, out),
            _ => false,
        }
    }

    /// Takes bytes from the channel and answers every whole packet they
    /// complete, in order, as `sftp_run` says for the handles drawn for the
    /// `Open` packets among them. A packet of an unknown type ends the
    /// reading and drops what is pending; an incomplete one waits for more
    /// bytes.
    pub fn data(&mut self, connection: &mut ConnectionState, data: &[u8], out: &mut Vec<u8>)
        requires
            old(self).wf(),
            old(connection).wf(),
        ensures
            final(self).wf(),
            final(connection).wf(),
            final(connection).username == old(connection).username,
            final(connection).file_system == old(connection).file_system,
            final(connection).environment == old(connection).environment,
            final(self).pending().len() == 0 || read_packet(final(self).pending()) is Incomplete,
            exists|ids: Seq<u128>| {
                let run = #[trigger] sftp_run(old(self).files(), old(self).pending() + data@, ids);
                &&& final(self).files() == run.0
                &&& final(out)@ == old(out)@ + run.1
                &&& appended_records(
                    old(connection).audit_log.actions(),
                    final(connection).audit_log.actions(),
                    run.2,
                )
                &&& final(self).pending() == run.3
            },
    {
        append_bytes(&mut self.pending_data, data);
        let ghost fs0 = self.files();
        let ghost p0 = self.pending();
        let ghost acts0 = connection.audit_log.actions();
        let ghost out0 = out@;
        let ghost mut ids: Seq<u128> = Seq::empty();
        let ghost mut done_out: Seq<u8> = Seq::empty();
        let ghost mut recs: Seq<Recorded> = Seq::empty();
        assert(acts0.take(acts0.len() as int) =~= acts0);
        assert forall|rest: Seq<u128>| #[trigger] sftp_run(fs0, p0, ids + rest) == run_after(
            sftp_run(fs0, p0, rest),
            done_out,
            recs,
        ) by {
            assert(ids + rest =~= rest);
            let r = sftp_run(fs0, p0, rest);
            assert(done_out + r.1 =~= r.1);
            assert(recs + r.2 =~= r.2);
        }
        loop
            invariant
                connection.wf(),
                connection.username == old(connection).username,
                connection.file_system == old(connection).file_system,
                connection.environment == old(connection).environment,
                fs0 == old(self).files(),
                p0 == old(self).pending() + data@,
                acts0 == old(connection).audit_log.actions(),
                out0 == old(out)@,
                out@ == out0 + done_out,
                appended_records(acts0, connection.audit_log.actions(), recs),
                forall|rest: Seq<u128>| #[trigger] sftp_run(fs0, p0, ids + rest) == run_after(
                    sftp_run(self.files(), self.pending(), rest),
                    done_out,
                    recs,
                ),
            decreases self.pending_data@.len(),
        {
            let ghost fs = self.files();
            let ghost pend = self.pending();
            match WirePacket::parse(self.pending_data.as_slice()) {
                Parsed::Incomplete => {
                    proof {
                        lemma_run_witness(fs0, p0, ids, fs, pend, done_out, recs);
                    }
                    return;
                },
                Parsed::Bad => {
                    self.pending_data = Vec::new();
                    proof {
                        assert(self.pending() =~= Seq::<u8>::empty());
                        lemma_run_witness(fs0, p0, ids, fs, pend, done_out, recs);
                    }
                    return;
                },
                Parsed::Packet(packet, k) => {
                    self.pending_data = sub_bytes(self.pending_data.as_slice(), k, self.pending_data.len());
                    let is_open = match packet.typ {
                        PacketType::Open => true,
                        _ => false,
                    };
                    let fresh = if is_open {
                        random_uuid()
                    } else {
                        0
                    };
                    let ghost out_before = out@;
                    let ghost acts_before = connection.audit_log.actions();
                    self.process_packet(connection, &packet, fresh, out);
                    proof {
                        let eff = packet_effect(fs, packet.typ, packet.request_id, packet.data@, fresh);
                        let step = effect_or_skip(eff, fs);
                        let new_ids = if is_open { ids.push(fresh) } else { ids };
                        let new_out = done_out + step.1;
                        let new_recs = recs + record_seq(step.2);
                        assert(out@ =~= out0 + new_out);
                        lemma_records_extend(acts0, acts_before, connection.audit_log.actions(), recs, step.2);
                        assert forall|rest: Seq<u128>| #[trigger] sftp_run(fs0, p0, new_ids + rest)
                            == run_after(
                            sftp_run(self.files(), self.pending(), rest),
                            new_out,
                            new_recs,
                        ) by {
                            let rest2 = if is_open { seq![fresh] + rest } else { rest };
                            assert(new_ids + rest =~= ids + rest2);
                            assert(rest2.len() > 0 && is_open ==> rest2[0] == fresh && rest2.drop_first() =~= rest);
                            let r = sftp_run(self.files(), self.pending(), rest);
                            assert(sftp_run(fs, pend, rest2) == run_after(r, step.1, record_seq(step.2)));
                            assert(done_out + (step.1 + r.1) =~= new_out + r.1);
                            assert(recs + (record_seq(step.2) + r.2) =~= new_recs + r.2);
                        }
                        ids = new_ids;
                        done_out = new_out;
                        recs = new_recs;
                    }
                },
            }
        }
    }

    fn simple_packet(
        &self,
        connection: &mut ConnectionState,
        t: PacketType,
        body: &[u8],
        id: u32,
        out: &mut Vec<u8>,
    ) -> (handled: bool)
        requires
            old(connection).wf(),
            t is Init || t is Stat || t is Lstat || t is SetStat || t is FSetStat || t is Mkdir,
        ensures
            final(connection).wf(),
            final(connection).username == old(connection).username,
            final(connection).file_system == old(connection).file_system,
            final(connection).environment == old(connection).environment,
            effect_holds(
                packet_effect(self.files(), t, id, body@, 0),
                handled,
                self.files(),
                self.files(),
                old(out)@,
                final(out)@,
                old(connection).audit_log.actions(),
                final(connection).audit_log.actions(),
            ),
    {
        proof {
        }
        match t {
            PacketType::Init => {
                let v = if id < 6 {
                    id
                } else {
                    6
                };
                let p = WirePacket::new(PacketType::Version, v, Vec::new());
                let b = p.to_bytes();
                append_bytes(out, b.as_slice());
                true
            },
            PacketType::Stat | PacketType::Lstat => {
                match read_string(body, 0) {
                    Some(_) => {
                        Sftp::status_reply(out, id, StatusCode::NoSuchFile, no_such_file_text());
                        true
                    },
                    None => false,
                }
            },
            PacketType::Mkdir => {
                match read_string(body, 0) {
                    Some((path, _)) => {
                        let ghost pv = path@;
                        let ghost acts = connection.audit_log.actions();
                        connection.audit_log.push_action(AuditLogAction::Mkdir(MkdirEvent { path }));
                        assert(records(connection.audit_log.actions().last(), Recorded::Mkdir(pv)));
                        assert(connection.audit_log.actions().drop_last() =~= acts);
                        Sftp::status_reply(out, id, StatusCode::Success, empty_text());
                        true
                    },
                    None => false,
                }
            },
            _ => {
                match read_string(body, 0) {
                    Some(_) => {
                        Sftp::status_reply(out, id, StatusCode::Success, empty_text());
                        true
                    },
                    None => false,
                }
            },
        }
    }

    fn open_file(&mut self, body: &[u8], id: u32, fresh: u128, out: &mut Vec<u8>) -> (handled: bool)
        ensures
            final(self).pending() == old(self).pending(),
            effect_holds(
                open_effect(old(self).files(), id, body@, fresh),
                handled,
                old(self).files(),
                final(self).files(),
                old(out)@,
                final(out)@,
                Seq::empty(),
                Seq::empty(),
            ),
    {
        broadcast use vstd::std_specs::hash::group_hash_axioms;
        match read_string(body, 0) {
            Some((path, k)) => {
                if body.len() < 8 || k > body.len() - 8 {
                    return false;
                }
                let ghost fs = self.files();
                let ghost pv = path@;
                self.open_files.insert(fresh, path);
                assert(self.files() =~= fs.insert(fresh, pv));
                let r = HandleResponse(fresh);
                let hb = r.to_bytes();
                let p = WirePacket::new(PacketType::Handle, id, hb);
                let b = p.to_bytes();
                append_bytes(out, b.as_slice());
                true
            },
            None => false,
        }
    }

    fn write_file(
        &mut self,
        connection: &mut ConnectionState,
        body: &[u8],
        id: u32,
        out: &mut Vec<u8>,
    ) -> (handled: bool)
        requires
            old(connection).wf(),
        ensures
            *final(self) == *old(self),
            final(connection).wf(),
            final(connection).username == old(connection).username,
            final(connection).file_system == old(connection).file_system,
            final(connection).environment == old(connection).environment,
            effect_holds(
                write_effect(old(self).files(), id, body@),
                handled,
                old(self).files(),
                final(self).files(),
                old(out)@,
                final(out)@,
                old(connection).audit_log.actions(),
                final(connection).audit_log.actions(),
            ),
    {
        broadcast use vstd::std_specs::hash::group_hash_axioms;
        let (h, k) = match read_string(body, 0) {
            Some(x) => x,
            None => return false,
        };
        if body.len() < 8 || k > body.len() - 8 {
            return false;
        }
        let (data, _) = match read_string(body, k + 8) {
            Some(x) => x,
            None => return false,
        };
        let u = match parse_uuid(h.as_slice()) {
            Some(u) => u,
            None => return false,
        };
        let path = match self.open_files.get(&u) {
            Some(p) => copy_bytes(p.as_slice()),
            None => return false,
        };
        let ghost pv = path@;
        let ghost dv = data@;
        let ghost acts = connection.audit_log.actions();
        connection.audit_log.push_action(
            AuditLogAction::WriteFile(WriteFileEvent { path, content: data }),
        );
        assert(records(connection.audit_log.actions().last(), Recorded::Write(pv, dv)));
        assert(connection.audit_log.actions().drop_last() =~= acts);
        let empty: Vec<u8> = Vec::new();
        assert(empty@ =~= Seq::<u8>::empty());
        Sftp::status_reply(out, id, StatusCode::Success, empty);
        true
    }

    fn close_file(&mut self, body: &[u8], id: u32, out: &mut Vec<u8>) -> (handled: bool)
        ensures
            final(self).pending() == old(self).pending(),
            effect_holds(
                close_effect(old(self).files(), id, body@),
                handled,
                old(self).files(),
                final(self).files(),
                old(out)@,
                final(out)@,
                Seq::empty(),
                Seq::empty(),
            ),
    {
        broadcast use vstd::std_specs::hash::group_hash_axioms;
        let (h, _) = match read_string(body, 0) {
            Some(x) => x,
            None => return false,
        };
        let u = match parse_uuid(h.as_slice()) {
            Some(u) => u,
            None => return false,
        };
        let ghost fs = self.files();
        match self.open_files.remove(&u) {
            Some(_) => {
                assert(self.files() =~= fs.remove(u));
                Sftp::status_reply(out, id, StatusCode::Success, empty_text());
                true
            },
            None => {
                assert(self.files() =~= fs);
                false
            },
        }
    }

    fn real_path(&self, body: &[u8], id: u32, out: &mut Vec<u8>) -> (handled: bool)
        ensures
            effect_holds(
                real_path_effect(self.files(), id, body@),
                handled,
                self.files(),
                self.files(),
                old(out)@,
                final(out)@,
                Seq::empty(),
                Seq::empty(),
            ),
    {
        proof {
        }
        let (path, k) = match read_string(body, 0) {
            Some(x) => x,
            None => return false,
        };
        if k < body.len() && body[k] == 2 {
            Sftp::status_reply(out, id, StatusCode::NoSuchFile, no_such_file_text());
            return true;
        }
        if path.len() > (0xffff_ffff - 32) / 2 {
            return false;
        }
        let f = NameResponseFile {
            name: copy_bytes(path.as_slice()),
            long_name: path,
            attrs: FileAttrs { typ: FileType::Unknown },
        };
        let mut files: Vec<NameResponseFile> = Vec::new();
        files.push(f);
        let r = NameResponse { files };
        let nb = r.to_bytes();
        proof {
            lemma_be32_len(1);
            assert(r.files@.drop_last() =~= Seq::<NameResponseFile>::empty());
            assert(name_files_bytes(r.files@.drop_last()) == Seq::<u8>::empty());
            lemma_name_file_len(r.files@[0].name@, r.files@[0].long_name@, FileType::Unknown);
        }
        let p = WirePacket::new(PacketType::Name, id, nb);
        let b = p.to_bytes();
        append_bytes(out, b.as_slice());
        assert(name_files_bytes(r.files@) =~= name_file_bytes(
            r.files@[0].name@,
            r.files@[0].long_name@,
            FileType::Unknown,
        )) by {
            assert(r.files@.drop_last() =~= Seq::<NameResponseFile>::empty());
            assert(name_files_bytes(r.files@.drop_last()) == Seq::<u8>::empty());
        }
        true
    }
}

/// Opening a file gives a handle under which its path is found; closing
/// that handle removes it, so that closing it again finds nothing and is
/// skipped.
pub proof fn law_close_forgets(
    fs: Files,
    open_id: u32,
    open_body: Seq<u8>,
    fresh: u128,
    close_id: u32,
    close_body: Seq<u8>,
    again_id: u32,
)
    requires
        open_effect(fs, open_id, open_body, fresh) is Some,
        string_at(close_body, 0) matches Some((h, _)) && uuid_of(h) == Some(fresh),
    ensures
        ({
            let fs1 = open_effect(fs, open_id, open_body, fresh).unwrap().0;
            &&& file_of(fs1, fresh) == Some(string_at(open_body, 0).unwrap().0)
            &&& close_effect(fs1, close_id, close_body) is Some
            &&& close_effect(close_effect(fs1, close_id, close_body).unwrap().0, again_id, close_body) is None
        }),
{
    let path = string_at(open_body, 0).unwrap().0;
    let fs1 = fs.insert(fresh, path);
    assert(fs1.contains_key(fresh));
    assert(!fs1.remove(fresh).contains_key(fresh));
}

/// A packet's effect, or none for a skipped one.
pub open spec fn effect_or_skip(eff: Effect, fs: Files) -> (Files, Seq<u8>, Option<Recorded>) {
    match eff {
        Some(x) => x,
        None => (fs, Seq::empty(), None),
    }
}

pub open spec fn record_seq(r: Option<Recorded>) -> Seq<Recorded> {
    match r {
        Some(x) => seq![x],
        None => Seq::empty(),
    }
}

/// What a buffer of packets does, given the handles that the `Open`
/// packets among them hand out, in order: the open files after it, the
/// replies, the records, and the bytes left pending.
pub open spec fn sftp_run(fs: Files, pending: Seq<u8>, ids: Seq<u128>) -> (
    Files,
    Seq<u8>,
    Seq<Recorded>,
    Seq<u8>,
)
    decreases pending.len(),
{
    match read_packet(pending) {
        PacketRead::Incomplete => (fs, Seq::empty(), Seq::empty(), pending),
        PacketRead::Bad => (fs, Seq::empty(), Seq::empty(), Seq::empty()),
        PacketRead::Packet(t, id, body, k) => if 0 < k <= pending.len() {
            let opens = t is Open && ids.len() > 0;
            let fresh = if opens { ids[0] } else { 0 };
            let step = effect_or_skip(packet_effect(fs, t, id, body, fresh), fs);
            let later = sftp_run(step.0, pending.skip(k), if opens { ids.drop_first() } else { ids });
            run_after(later, step.1, record_seq(step.2))
        } else {
            (fs, Seq::empty(), Seq::empty(), pending)
        },
    }
}

/// A run with `out` and `recs` in front of its replies and records.
pub open spec fn run_after(
    run: (Files, Seq<u8>, Seq<Recorded>, Seq<u8>),
    out: Seq<u8>,
    recs: Seq<Recorded>,
) -> (Files, Seq<u8>, Seq<Recorded>, Seq<u8>) {
    (run.0, out + run.1, recs + run.2, run.3)
}

/// Whether `after` is `before` followed by one action for each record.
pub open spec fn appended_records(
    before: Seq<AuditLogAction>,
    after: Seq<AuditLogAction>,
    recs: Seq<Recorded>,
) -> bool {
    &&& after.len() == before.len() + recs.len()
    &&& after.take(before.len() as int) == before
    &&& forall|i: int| 0 <= i < recs.len() ==> records(#[trigger] after[before.len() + i], recs[i])
}

proof fn lemma_records_extend(
    a0: Seq<AuditLogAction>,
    a1: Seq<AuditLogAction>,
    a2: Seq<AuditLogAction>,
    recs: Seq<Recorded>,
    rec: Option<Recorded>,
)
    requires
        appended_records(a0, a1, recs),
        match rec {
            None => a2 == a1,
            Some(rc) => a2.len() == a1.len() + 1 && a2.drop_last() == a1 && records(a2.last(), rc),
        },
    ensures
        appended_records(a0, a2, recs + record_seq(rec)),
{
    let r2 = recs + record_seq(rec);
    match rec {
        None => {
            assert(r2 =~= recs);
        },
        Some(rc) => {
            assert(a2.take(a0.len() as int) =~= a1.take(a0.len() as int)) by {
                assert forall|j: int| 0 <= j < a0.len() implies a2[j] == a1[j] by {
                    assert(a2.drop_last()[j] == a2[j]);
                }
            }
            assert forall|i: int| 0 <= i < r2.len() implies records(#[trigger] a2[a0.len() + i], r2[i]) by {
                if i < recs.len() {
                    assert(a2.drop_last()[a0.len() + i] == a2[a0.len() + i]);
                    assert(r2[i] == recs[i]);
                } else {
                    assert(r2[i] == rc);
                }
            }
        },
    }
}

/// At a buffer that reads no further, the run so far is the whole run.
proof fn lemma_run_witness(
    fs0: Files,
    p0: Seq<u8>,
    ids: Seq<u128>,
    fs: Files,
    pend: Seq<u8>,
    done_out: Seq<u8>,
    recs: Seq<Recorded>,
)
    requires
        forall|rest: Seq<u128>| #[trigger] sftp_run(fs0, p0, ids + rest) == run_after(
            sftp_run(fs, pend, rest),
            done_out,
            recs,
        ),
        !(read_packet(pend) is Packet),
    ensures
        sftp_run(fs0, p0, ids) == run_after(sftp_run(fs, pend, Seq::empty()), done_out, recs),
{
    assert(ids + Seq::<u128>::empty() =~= ids);
    let e = Seq::<u128>::empty();
    assert(sftp_run(fs0, p0, ids + e) == run_after(sftp_run(fs, pend, e), done_out, recs));
}

/// Whether a packet had the effect `effect` says: the open files, the
/// reply, and the audit record.
pub open spec fn effect_holds(
    effect: Option<(Files, Seq<u8>, Option<Recorded>)>,
    handled: bool,
    files_before: Files,
    files_after: Files,
    out_before: Seq<u8>,
    out_after: Seq<u8>,
    actions_before: Seq<AuditLogAction>,
    actions_after: Seq<AuditLogAction>,
) -> bool {
    match effect {
        None => !handled && files_after == files_before && out_after == out_before && actions_after
            == actions_before,
        Some((fs, reply, rec)) => handled && files_after == fs && out_after == out_before + reply
            && match rec {
            None => actions_after == actions_before,
            Some(rc) => actions_after.len() == actions_before.len() + 1 && actions_after.drop_last()
                == actions_before && records(actions_after.last(), rc),
        },
    }
}

} // verus!
