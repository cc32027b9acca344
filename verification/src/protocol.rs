//! The wire protocol between client and build daemon: the message types,
//! the platform triple a build is made for, and the framing of a message as
//! a 4-byte big-endian length header followed by the encoded payload.
//!
//! Messages are encoded with bincode by the programs around this library;
//! here a payload is a byte string, and the frame is checked and split.
use vstd::prelude::*;
use crate::text::owned;

verus! {

/// The header of a frame: the length of the payload that follows.
#[derive(Debug, Clone, Copy, PartialEq, Eq, Structural)]
pub struct Header {
    pub length: u32,
}

/// The size of an encoded [`Header`] in bytes.
pub const HEADER_SIZE: usize = 4;

/// The big-endian value of four bytes.
pub open spec fn be_u32(b: Seq<u8>) -> u32 {
    ((b[0] as u32) << 24u32) | ((b[1] as u32) << 16u32) | ((b[2] as u32) << 8u32) | (b[3] as u32)
}

/// The four big-endian bytes of a value.
pub open spec fn be_bytes(x: u32) -> Seq<u8> {
    seq![(x >> 24u32) as u8, ((x >> 16u32) & 0xffu32) as u8, ((x >> 8u32) & 0xffu32) as u8, (x & 0xffu32) as u8]
}

impl Header {
    /// Read a header from its four big-endian bytes.
    pub fn from_bytes(buf: &[u8; 4]) -> (r: Header)
        ensures
            r.length == be_u32(buf@),
    {
        let b0 = buf[0] as u32;
        let b1 = buf[1] as u32;
        let b2 = buf[2] as u32;
        let b3 = buf[3] as u32;
        Header { length: (b0 << 24u32) | (b1 << 16u32) | (b2 << 8u32) | b3 }
    }

    /// The four big-endian bytes of a header.
    pub fn to_bytes(&self) -> (r: [u8; 4])
        ensures
            r@ == be_bytes(self.length),
    {
        let x = self.length;
        let r = [(x >> 24u32) as u8, ((x >> 16u32) & 0xffu32) as u8, ((x >> 8u32) & 0xffu32) as u8, (x & 0xffu32) as u8];
        assert(r@ =~= be_bytes(x));
        r
    }
}

/// Reading the bytes of a header gives back that header.
pub proof fn law_header_round_trip(h: Header)
    ensures
        be_u32(be_bytes(h.length)) == h.length,
{
    let x = h.length;
    assert((((((x >> 24u32) as u8) as u32) << 24u32) | (((((x >> 16u32) & 0xffu32) as u8) as u32) << 16u32) | (
    ((((x >> 8u32) & 0xffu32) as u8) as u32) << 8u32) | (((x & 0xffu32) as u8) as u32)) == x) by (bit_vector);
}

/// Writing the header read from four bytes gives back those bytes.
pub proof fn law_bytes_round_trip(b: Seq<u8>)
    requires
        b.len() == 4,
    ensures
        be_bytes(be_u32(b)) == b,
{
    let b0 = b[0];
    let b1 = b[1];
    let b2 = b[2];
    let b3 = b[3];
    let x = be_u32(b);
    assert(x == ((b0 as u32) << 24u32) | ((b1 as u32) << 16u32) | ((b2 as u32) << 8u32) | (b3 as u32));
    assert((x >> 24u32) as u8 == b0 && ((x >> 16u32) & 0xffu32) as u8 == b1 && ((x >> 8u32) & 0xffu32) as u8 == b2
        && (x & 0xffu32) as u8 == b3) by (bit_vector)
        requires
            x == ((b0 as u32) << 24u32) | ((b1 as u32) << 16u32) | ((b2 as u32) << 8u32) | (b3 as u32),
    ;
    assert(be_bytes(x) =~= b);
}

/// One file of a workspace manifest: its path and the BLAKE3 digest of its
/// contents.
#[derive(Debug, Clone, PartialEq, Eq)]
pub struct FileEntry {
    pub path: String,
    pub hash: [u8; 32],
}

/// The manifest entry of a file: its path and the BLAKE3 digest of its
/// contents.
pub fn file_entry(path: String, contents: &[u8]) -> (r: FileEntry)
    ensures
        r.path@ == path@,
        r.hash@ == crate::digest::blake3_digest(contents@),
{
    FileEntry { path, hash: crate::digest::blake3_hash(contents) }
}

/// A processor architecture.
#[derive(Debug, Clone, Copy, PartialEq, Eq, Structural)]
pub enum Arch {
    X86_64,
    Aarch64,
}

/// An operating system.
#[derive(Debug, Clone, Copy, PartialEq, Eq, Structural)]
pub enum Os {
    Windows,
    Linux,
    Mac,
}

/// An application binary interface.
#[derive(Debug, Clone, Copy, PartialEq, Eq, Structural)]
pub enum Abi {
    Gnu,
    Musl,
    Msvc,
}

/// The platform a build is made for.
#[derive(Debug, Clone, Copy, PartialEq, Eq, Structural)]
pub struct PlatformTriple {
    pub arch: Arch,
    pub os: Os,
    pub abi: Abi,
}

/// The cargo target name of a platform, for the platforms that have one.
pub open spec fn cargo_target(p: PlatformTriple) -> Option<Seq<char>> {
    match (p.arch, p.os, p.abi) {
        (Arch::X86_64, Os::Linux, Abi::Gnu) => Some("x86_64-unknown-linux-gnu"@),
        (Arch::X86_64, Os::Linux, Abi::Musl) => Some("x86_64-unknown-linux-musl"@),
        (Arch::Aarch64, Os::Linux, Abi::Gnu) => Some("aarch64-unknown-linux-gnu"@),
        (Arch::Aarch64, Os::Linux, Abi::Musl) => Some("aarch64-unknown-linux-musl"@),
        (Arch::X86_64, Os::Windows, Abi::Msvc) => Some("x86_64-pc-windows-msvc"@),
        (Arch::X86_64, Os::Windows, Abi::Gnu) => Some("x86_64-pc-windows-gnu"@),
        (Arch::Aarch64, Os::Windows, Abi::Msvc) => Some("aarch64-pc-windows-msvc"@),
        (Arch::X86_64, Os::Mac, _) => Some("x86_64-apple-darwin"@),
        (Arch::Aarch64, Os::Mac, _) => Some("aarch64-apple-darwin"@),
        _ => None,
    }
}

/// Distinct platforms are built for distinct cargo targets: two supported
/// platforms with the same target name have the same architecture and
/// system, and the same ABI unless the system is macOS (where the ABI is not
/// part of the name).
pub proof fn law_cargo_targets_distinct(p: PlatformTriple, q: PlatformTriple)
    requires
        cargo_target(p) is Some,
        cargo_target(p) == cargo_target(q),
    ensures
        p.arch == q.arch,
        p.os == q.os,
        p.os != Os::Mac ==> p.abi == q.abi,
{
    reveal_strlit("x86_64-unknown-linux-gnu");
    reveal_strlit("x86_64-unknown-linux-musl");
    reveal_strlit("aarch64-unknown-linux-gnu");
    reveal_strlit("aarch64-unknown-linux-musl");
    reveal_strlit("x86_64-pc-windows-msvc");
    reveal_strlit("x86_64-pc-windows-gnu");
    reveal_strlit("aarch64-pc-windows-msvc");
    reveal_strlit("x86_64-apple-darwin");
    reveal_strlit("aarch64-apple-darwin");
    assert("x86_64-unknown-linux-gnu"@[21] != "x86_64-unknown-linux-musl"@[21]);
    assert("x86_64-unknown-linux-gnu"@[0] != "aarch64-unknown-linux-gnu"@[0]);
    assert("x86_64-unknown-linux-gnu"@[0] != "aarch64-unknown-linux-musl"@[0]);
    assert("x86_64-unknown-linux-gnu"@[7] != "x86_64-pc-windows-msvc"@[7]);
    assert("x86_64-unknown-linux-gnu"@[7] != "x86_64-pc-windows-gnu"@[7]);
    assert("x86_64-unknown-linux-gnu"@[0] != "aarch64-pc-windows-msvc"@[0]);
    assert("x86_64-unknown-linux-gnu"@[7] != "x86_64-apple-darwin"@[7]);
    assert("x86_64-unknown-linux-gnu"@[0] != "aarch64-apple-darwin"@[0]);
    assert("x86_64-unknown-linux-musl"@[0] != "aarch64-unknown-linux-gnu"@[0]);
    assert("x86_64-unknown-linux-musl"@[0] != "aarch64-unknown-linux-musl"@[0]);
    assert("x86_64-unknown-linux-musl"@[7] != "x86_64-pc-windows-msvc"@[7]);
    assert("x86_64-unknown-linux-musl"@[7] != "x86_64-pc-windows-gnu"@[7]);
    assert("x86_64-unknown-linux-musl"@[0] != "aarch64-pc-windows-msvc"@[0]);
    assert("x86_64-unknown-linux-musl"@[7] != "x86_64-apple-darwin"@[7]);
    assert("x86_64-unknown-linux-musl"@[0] != "aarch64-apple-darwin"@[0]);
    assert("aarch64-unknown-linux-gnu"@[22] != "aarch64-unknown-linux-musl"@[22]);
    assert("aarch64-unknown-linux-gnu"@[0] != "x86_64-pc-windows-msvc"@[0]);
    assert("aarch64-unknown-linux-gnu"@[0] != "x86_64-pc-windows-gnu"@[0]);
    assert("aarch64-unknown-linux-gnu"@[8] != "aarch64-pc-windows-msvc"@[8]);
    assert("aarch64-unknown-linux-gnu"@[0] != "x86_64-apple-darwin"@[0]);
    assert("aarch64-unknown-linux-gnu"@[8] != "aarch64-apple-darwin"@[8]);
    assert("aarch64-unknown-linux-musl"@[0] != "x86_64-pc-windows-msvc"@[0]);
    assert("aarch64-unknown-linux-musl"@[0] != "x86_64-pc-windows-gnu"@[0]);
    assert("aarch64-unknown-linux-musl"@[8] != "aarch64-pc-windows-msvc"@[8]);
    assert("aarch64-unknown-linux-musl"@[0] != "x86_64-apple-darwin"@[0]);
    assert("aarch64-unknown-linux-musl"@[8] != "aarch64-apple-darwin"@[8]);
    assert("x86_64-pc-windows-msvc"@[18] != "x86_64-pc-windows-gnu"@[18]);
    assert("x86_64-pc-windows-msvc"@[0] != "aarch64-pc-windows-msvc"@[0]);
    assert("x86_64-pc-windows-msvc"@[7] != "x86_64-apple-darwin"@[7]);
    assert("x86_64-pc-windows-msvc"@[0] != "aarch64-apple-darwin"@[0]);
    assert("x86_64-pc-windows-gnu"@[0] != "aarch64-pc-windows-msvc"@[0]);
    assert("x86_64-pc-windows-gnu"@[7] != "x86_64-apple-darwin"@[7]);
    assert("x86_64-pc-windows-gnu"@[0] != "aarch64-apple-darwin"@[0]);
    assert("aarch64-pc-windows-msvc"@[0] != "x86_64-apple-darwin"@[0]);
    assert("aarch64-pc-windows-msvc"@[8] != "aarch64-apple-darwin"@[8]);
    assert("x86_64-apple-darwin"@[0] != "aarch64-apple-darwin"@[0]);
}

impl PlatformTriple {
    /// Whether the platform has a cargo target name.
    pub fn is_supported(&self) -> (r: bool)
        ensures
            r == cargo_target(*self) is Some,
    {
        match (self.arch, self.os, self.abi) {
            (Arch::X86_64, Os::Linux, Abi::Gnu) => true,
            (Arch::X86_64, Os::Linux, Abi::Musl) => true,
            (Arch::Aarch64, Os::Linux, Abi::Gnu) => true,
            (Arch::Aarch64, Os::Linux, Abi::Musl) => true,
            (Arch::X86_64, Os::Windows, Abi::Msvc) => true,
            (Arch::X86_64, Os::Windows, Abi::Gnu) => true,
            (Arch::Aarch64, Os::Windows, Abi::Msvc) => true,
            (Arch::X86_64, Os::Mac, _) => true,
            (Arch::Aarch64, Os::Mac, _) => true,
            _ => false,
        }
    }

    /// The cargo target name (`--target` value) of a supported platform.
    pub fn as_cargo_target_string(&self) -> (r: String)
        requires
            cargo_target(*self) is Some,
        ensures
            r@ == cargo_target(*self).unwrap(),
    {
        match (self.arch, self.os, self.abi) {
            (Arch::X86_64, Os::Linux, Abi::Gnu) => owned("x86_64-unknown-linux-gnu"),
            (Arch::X86_64, Os::Linux, Abi::Musl) => owned("x86_64-unknown-linux-musl"),
            (Arch::Aarch64, Os::Linux, Abi::Gnu) => owned("aarch64-unknown-linux-gnu"),
            (Arch::Aarch64, Os::Linux, Abi::Musl) => owned("aarch64-unknown-linux-musl"),
            (Arch::X86_64, Os::Windows, Abi::Msvc) => owned("x86_64-pc-windows-msvc"),
            (Arch::X86_64, Os::Windows, Abi::Gnu) => owned("x86_64-pc-windows-gnu"),
            (Arch::Aarch64, Os::Windows, Abi::Msvc) => owned("aarch64-pc-windows-msvc"),
            (Arch::X86_64, Os::Mac, _) => owned("x86_64-apple-darwin"),
            _ => owned("aarch64-apple-darwin"),
        }
    }
}

/// A build the client asks the daemon for.
#[derive(Debug, Clone, PartialEq, Eq)]
pub struct BuildRequest {
    pub cargo_args: Vec<String>,
    pub subdir: Option<String>,
    pub host_platform: PlatformTriple,
}

/// A protocol message.
#[derive(Debug, Clone, PartialEq, Eq)]
pub enum Message {
    Manifest(Vec<FileEntry>),
    NeedFiles(Vec<String>),
    FileData { path: String, contents: Vec<u8> },
    SyncDone,
    SyncAck,
    BuildRequest(BuildRequest),
    BuildOutput(Vec<u8>),
    BuildFinished { exit_code: u8 },
    /// A built executable shipped back: its file name and its contents as
    /// one zstd frame.
    Executable { name: String, contents: Vec<u8> },
}

/// A decoded frame: its header and its message.
#[derive(Debug)]
pub struct Frame {
    pub header: Header,
    pub message: Message,
}

/// The frame of a payload: the header holding the payload's length (as a
/// `u32`, truncated as `as u32` does), then the payload.
pub open spec fn framed(payload: Seq<u8>) -> Seq<u8> {
    be_bytes(payload.len() as u32) + payload
}

/// Frame an encoded message.
pub fn encode(payload: &[u8]) -> (r: Vec<u8>)
    ensures
        r@ == framed(payload@),
{
    #[verifier::truncate]
    let len = payload.len() as u32;
    let header = Header { length: len };
    let h = header.to_bytes();
    let mut frame: Vec<u8> = Vec::new();
    frame.push(h[0]);
    frame.push(h[1]);
    frame.push(h[2]);
    frame.push(h[3]);
    let mut i: usize = 0;
    while i < payload.len()
        invariant
            0 <= i <= payload.len(),
            frame@ == h@ + payload@.take(i as int),
        decreases payload.len() - i,
    {
        frame.push(payload[i]);
        i = i + 1;
        assert(frame@ =~= h@ + payload@.take(i as int));
    }
    assert(payload@.take(payload.len() as int) =~= payload@);
    frame
}

/// Split a frame into its header and the encoded message after it.
pub fn decode(raw: &[u8]) -> (r: (Header, Vec<u8>))
    requires
        raw@.len() >= 4,
    ensures
        r.0.length == be_u32(raw@.take(4)),
        r.1@ == raw@.skip(4),
{
    let hb: [u8; 4] = [raw[0], raw[1], raw[2], raw[3]];
    assert(hb@ =~= raw@.take(4));
    let header = Header::from_bytes(&hb);
    let mut rest: Vec<u8> = Vec::new();
    let mut i: usize = 4;
    while i < raw.len()
        invariant
            4 <= i <= raw.len(),
            rest@ == raw@.subrange(4, i as int),
        decreases raw.len() - i,
    {
        rest.push(raw[i]);
        i = i + 1;
        assert(rest@ =~= raw@.subrange(4, i as int));
    }
    assert(raw@.subrange(4, raw.len() as int) =~= raw@.skip(4));
    (header, rest)
}

/// Decoding a frame gives back the payload, and a header holding its length.
pub proof fn law_decode_encode(payload: Seq<u8>)
    ensures
        framed(payload).len() >= 4,
        be_u32(framed(payload).take(4)) == payload.len() as u32,
        framed(payload).skip(4) == payload,
{
    let h = Header { length: payload.len() as u32 };
    law_header_round_trip(h);
    assert(framed(payload).take(4) =~= be_bytes(payload.len() as u32));
    assert(framed(payload).skip(4) =~= payload);
}

} // verus!
