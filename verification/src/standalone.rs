//! The trailer of a standalone binary: a fixed magic string followed by the
//! big-endian positions of the bundle's sections, appended to the end of an
//! executable, and the serializable form of a dependency parse error
//! carried inside the bundle's metadata.

use vstd::prelude::*;

use vstd::bytes::{spec_u64_from_le_bytes, spec_u64_to_le_bytes, u64_from_le_bytes, u64_to_le_bytes};

use crate::ascii::{bytes_eq, bytes_of, range_bytes, str_bytes};

verus! {

/// The magic string that opens a trailer.
pub open spec fn spec_magic() -> Seq<u8> {
    bytes_of("d3n0l4nd"@)
}

/// The whole trailer: the magic string and four 8-byte positions.
pub const TRAILER_SIZE: usize = 40;

/// The number read big-endian from eight bytes.
pub open spec fn spec_u64_from_be_bytes(s: Seq<u8>) -> u64
    recommends
        s.len() == 8,
{
    spec_u64_from_le_bytes(s.reverse())
}

/// The eight big-endian bytes of a number.
pub open spec fn spec_u64_to_be_bytes(x: u64) -> Seq<u8> {
    spec_u64_to_le_bytes(x).reverse()
}

/// Big-endian bytes read back give the number they were written from, and
/// eight bytes written back give the bytes they were read from.
pub proof fn lemma_u64_be_bytes_roundtrip()
    ensures
        forall|x: u64|
            {
                &&& #[trigger] spec_u64_to_be_bytes(x).len() == 8
                &&& spec_u64_from_be_bytes(spec_u64_to_be_bytes(x)) == x
            },
        forall|s: Seq<u8>|
            s.len() == 8 ==> #[trigger] spec_u64_to_be_bytes(spec_u64_from_be_bytes(s)) == s,
{
    vstd::bytes::lemma_auto_spec_u64_to_from_le_bytes();
    assert forall|x: u64|
        {
            &&& #[trigger] spec_u64_to_be_bytes(x).len() == 8
            &&& spec_u64_from_be_bytes(spec_u64_to_be_bytes(x)) == x
        } by {
        assert(spec_u64_to_le_bytes(x).reverse().reverse() =~= spec_u64_to_le_bytes(x));
    }
    assert forall|s: Seq<u8>| s.len() == 8 implies #[trigger] spec_u64_to_be_bytes(
        spec_u64_from_be_bytes(s),
    ) == s by {
        assert(spec_u64_to_le_bytes(spec_u64_from_le_bytes(s.reverse())) =~= s.reverse());
        assert(s.reverse().reverse() =~= s);
    }
}

/// Why a number could not be read from a trailer buffer.
#[derive(Clone, Copy, PartialEq, Eq, Structural, Debug)]
pub enum TrailerError {
    /// The buffer was not exactly eight bytes.
    BufferSize,
}

/// Read a big-endian number from exactly eight bytes.
pub fn u64_from_bytes(arr: &[u8]) -> (r: Result<u64, TrailerError>)
    ensures
        arr@.len() == 8 ==> (r matches Ok(x) && x == spec_u64_from_be_bytes(arr@)),
        arr@.len() != 8 ==> r == Err::<u64, TrailerError>(TrailerError::BufferSize),
{
    if arr.len() != 8 {
        return Err(TrailerError::BufferSize);
    }
    let mut rev: Vec<u8> = Vec::new();
    let mut i: usize = 0;
    while i < 8
        invariant
            i <= 8,
            arr@.len() == 8,
            rev@.len() == i,
            forall|j: int| 0 <= j < i ==> rev@[j] == arr@[7 - j],
        decreases 8 - i,
    {
        rev.push(arr[7 - i]);
        i = i + 1;
    }
    proof {
        assert(rev@ =~= arr@.reverse());
    }
    Ok(u64_from_le_bytes(rev.as_slice()))
}

/// Where the sections of a standalone binary start: the positions, in
/// bytes from the start of the file, of the module bundle, the metadata,
/// the virtual file system's directory, and its file contents.
pub struct Trailer {
    /// Where the module bundle starts.
    pub eszip_pos: u64,
    /// Where the metadata starts.
    pub metadata_pos: u64,
    /// Where the virtual file system's directory starts.
    pub npm_vfs_pos: u64,
    /// Where the virtual file system's file contents start.
    pub npm_files_pos: u64,
}

impl Trailer {
    /// Read a trailer from the last `TRAILER_SIZE` bytes of a file. A
    /// buffer that does not open with the magic string is not a trailer:
    /// the file was not produced by the bundler, and the answer is `None`,
    /// not an error.
    pub fn parse(trailer: &[u8]) -> (r: Result<Option<Trailer>, TrailerError>)
        requires
            trailer@.len() == TRAILER_SIZE as int,
        ensures
            trailer@.subrange(0, 8) != spec_magic() ==> (r matches Ok(o) && o is None),
            trailer@.subrange(0, 8) == spec_magic() ==> (r matches Ok(o) && (o matches Some(t) && {
                &&& t.eszip_pos == spec_u64_from_be_bytes(trailer@.subrange(8, 16))
                &&& t.metadata_pos == spec_u64_from_be_bytes(trailer@.subrange(16, 24))
                &&& t.npm_vfs_pos == spec_u64_from_be_bytes(trailer@.subrange(24, 32))
                &&& t.npm_files_pos == spec_u64_from_be_bytes(trailer@.subrange(32, 40))
            })),
    {
        proof {
            reveal_strlit("d3n0l4nd");
        }
        let magic = range_bytes(trailer, 0, 8);
        if !bytes_eq(magic.as_slice(), str_bytes("d3n0l4nd")) {
            return Ok(None);
        }
        let eszip_pos = match u64_from_bytes(range_bytes(trailer, 8, 16).as_slice()) {
            Ok(x) => x,
            Err(e) => {
                return Err(e);
            },
        };
        let metadata_pos = match u64_from_bytes(range_bytes(trailer, 16, 24).as_slice()) {
            Ok(x) => x,
            Err(e) => {
                return Err(e);
            },
        };
        let npm_vfs_pos = match u64_from_bytes(range_bytes(trailer, 24, 32).as_slice()) {
            Ok(x) => x,
            Err(e) => {
                return Err(e);
            },
        };
        let npm_files_pos = match u64_from_bytes(range_bytes(trailer, 32, 40).as_slice()) {
            Ok(x) => x,
            Err(e) => {
                return Err(e);
            },
        };
        Ok(Some(Trailer { eszip_pos, metadata_pos, npm_vfs_pos, npm_files_pos }))
    }

    /// How many bytes the metadata section holds.
    pub fn metadata_len(&self) -> (r: u64)
        requires
            self.metadata_pos <= self.npm_vfs_pos,
        ensures
            r == self.npm_vfs_pos - self.metadata_pos,
    {
        self.npm_vfs_pos - self.metadata_pos
    }

    /// How many bytes the virtual file system's directory holds.
    pub fn npm_vfs_len(&self) -> (r: u64)
        requires
            self.npm_vfs_pos <= self.npm_files_pos,
        ensures
            r == self.npm_files_pos - self.npm_vfs_pos,
    {
        self.npm_files_pos - self.npm_vfs_pos
    }

    /// The trailer's bytes: the magic string, then the four positions in
    /// big-endian order. Parsing them gives this trailer back.
    pub fn as_bytes(&self) -> (r: Vec<u8>)
        ensures
            r@.len() == TRAILER_SIZE as int,
            r@.subrange(0, 8) == spec_magic(),
            r@.subrange(8, 16) == spec_u64_to_be_bytes(self.eszip_pos),
            r@.subrange(16, 24) == spec_u64_to_be_bytes(self.metadata_pos),
            r@.subrange(24, 32) == spec_u64_to_be_bytes(self.npm_vfs_pos),
            r@.subrange(32, 40) == spec_u64_to_be_bytes(self.npm_files_pos),
    {
        proof {
            reveal_strlit("d3n0l4nd");
            vstd::bytes::lemma_auto_spec_u64_to_from_le_bytes();
        }
        let mut r = crate::ascii::copy_bytes(str_bytes("d3n0l4nd"));
        append_u64_be(&mut r, self.eszip_pos);
        append_u64_be(&mut r, self.metadata_pos);
        append_u64_be(&mut r, self.npm_vfs_pos);
        append_u64_be(&mut r, self.npm_files_pos);
        proof {
            assert(r@.subrange(0, 8) =~= spec_magic());
            assert(r@.subrange(8, 16) =~= spec_u64_to_be_bytes(self.eszip_pos));
            assert(r@.subrange(16, 24) =~= spec_u64_to_be_bytes(self.metadata_pos));
            assert(r@.subrange(24, 32) =~= spec_u64_to_be_bytes(self.npm_vfs_pos));
            assert(r@.subrange(32, 40) =~= spec_u64_to_be_bytes(self.npm_files_pos));
        }
        r
    }
}

/// Append a number's eight big-endian bytes.
fn append_u64_be(v: &mut Vec<u8>, x: u64)
    ensures
        final(v)@ == old(v)@ + spec_u64_to_be_bytes(x),
{
    proof {
        vstd::bytes::lemma_auto_spec_u64_to_from_le_bytes();
    }
    let le = u64_to_le_bytes(x);
    let mut i: usize = 0;
    while i < 8
        invariant
            i <= 8,
            le@ == spec_u64_to_le_bytes(x),
            le@.len() == 8,
            v@.len() == old(v)@.len() + i,
            v@ =~= old(v)@ + spec_u64_to_be_bytes(x).take(i as int),
        decreases 8 - i,
    {
        v.push(le[7 - i]);
        proof {
            assert(spec_u64_to_be_bytes(x)[i as int] == le@[7 - i as int]);
            assert(v@ =~= old(v)@ + spec_u64_to_be_bytes(x).take(i as int + 1));
        }
        i = i + 1;
    }
    proof {
        assert(v@ =~= old(v)@ + spec_u64_to_be_bytes(x));
    }
}

/// How a dependency entry of a project manifest can fail to parse: the
/// offending scheme value, the specifier's failure message, or an
/// unsupported scheme.
pub enum PackageJsonDepValueParseError {
    /// A dependency value with a bad scheme value.
    SchemeValue(String),
    /// A version requirement specifier that did not parse.
    Specifier(String),
    /// A scheme the resolver does not support.
    Unsupported {
        /// The scheme's name.
        scheme: String,
    },
}

/// The serializable form of a dependency parse error, as stored in a
/// standalone binary's metadata.
pub enum SerializablePackageJsonDepValueParseError {
    /// A dependency value with a bad scheme value.
    SchemeValue(String),
    /// A version requirement specifier that did not parse.
    Specifier(String),
    /// A scheme the resolver does not support.
    Unsupported {
        /// The scheme's name.
        scheme: String,
    },
}

impl SerializablePackageJsonDepValueParseError {
    /// The serializable form of a parse error, variant for variant.
    pub fn from_err(err: PackageJsonDepValueParseError) -> (r: Self)
        ensures
            match err {
                PackageJsonDepValueParseError::SchemeValue(v) => r
                    matches SerializablePackageJsonDepValueParseError::SchemeValue(w) && w == v,
                PackageJsonDepValueParseError::Specifier(v) => r
                    matches SerializablePackageJsonDepValueParseError::Specifier(w) && w == v,
                PackageJsonDepValueParseError::Unsupported { scheme } => r
                    matches SerializablePackageJsonDepValueParseError::Unsupported { scheme: s }
                    && s == scheme,
            },
    {
        match err {
            PackageJsonDepValueParseError::SchemeValue(v) => Self::SchemeValue(v),
            PackageJsonDepValueParseError::Specifier(v) => Self::Specifier(v),
            PackageJsonDepValueParseError::Unsupported { scheme } => Self::Unsupported { scheme },
        }
    }
}

} // verus!
verus! {

/// The trailer for a bundle laid out as consecutive sections after the
/// base binary: each position is the running sum of the section lengths
/// before it, as the bundle writer emits them.
impl Trailer {
    /// The positions of sections of these lengths, written one after
    /// another behind a base binary of `bin_len` bytes.
    pub fn from_section_lengths(
        bin_len: u64,
        eszip_len: u64,
        metadata_len: u64,
        npm_vfs_len: u64,
    ) -> (r: Trailer)
        requires
            bin_len + eszip_len + metadata_len + npm_vfs_len <= u64::MAX,
        ensures
            r.eszip_pos == bin_len,
            r.metadata_pos == bin_len + eszip_len,
            r.npm_vfs_pos == bin_len + eszip_len + metadata_len,
            r.npm_files_pos == bin_len + eszip_len + metadata_len + npm_vfs_len,
            r.metadata_pos <= r.npm_vfs_pos <= r.npm_files_pos,
    {
        let eszip_pos = bin_len;
        let metadata_pos = eszip_pos + eszip_len;
        let npm_vfs_pos = metadata_pos + metadata_len;
        let npm_files_pos = npm_vfs_pos + npm_vfs_len;
        Trailer { eszip_pos, metadata_pos, npm_vfs_pos, npm_files_pos }
    }
}

/// Why a binary could not be patched for the GUI subsystem.
#[derive(Clone, Copy, PartialEq, Eq, Structural, Debug)]
pub enum PeError {
    /// Neither optional-header magic field matched a known image type.
    NoMagic,
}

/// The little-endian number two bytes of `b` write, starting at `i`.
pub open spec fn spec_u16_at(b: Seq<u8>, i: int) -> u16 {
    vstd::bytes::spec_u16_from_le_bytes(b.subrange(i, i + 2))
}

/// The little-endian number four bytes of `b` write, starting at `i`.
pub open spec fn spec_u32_at(b: Seq<u8>, i: int) -> u32 {
    vstd::bytes::spec_u32_from_le_bytes(b.subrange(i, i + 4))
}

/// Where the image's optional header starts: the offset stored at byte 60
/// of the stub.
pub open spec fn spec_pe_start(b: Seq<u8>) -> int {
    spec_u32_at(b, 60) as int
}

/// Set the subsystem field of a Windows image to the GUI subsystem. The
/// magic field of the optional header says whether the image is 32- or
/// 64-bit, which fixes where the Windows-specific fields — the subsystem
/// among them — start; an image with neither magic value is refused
/// untouched.
pub fn set_windows_binary_to_gui(bin: &mut Vec<u8>) -> (r: Result<(), PeError>)
    requires
        old(bin)@.len() >= 64,
        spec_pe_start(old(bin)@) + 98 <= old(bin)@.len(),
    ensures
        ({
            let b = old(bin)@;
            let pe = spec_pe_start(b);
            if spec_u16_at(b, pe + 28) == 0x10b {
                r is Ok && final(bin)@ == b.update(pe + 96, 2u8).update(pe + 97, 0u8)
            } else if spec_u16_at(b, pe + 24) == 0x20b {
                r is Ok && final(bin)@ == b.update(pe + 92, 2u8).update(pe + 93, 0u8)
            } else {
                r == Err::<(), PeError>(PeError::NoMagic) && final(bin)@ == b
            }
        }),
{
    proof {
        vstd::bytes::lemma_auto_spec_u32_to_from_le_bytes();
    }
    let ghost b = bin@;
    let start_pe32 = vstd::bytes::u32_from_le_bytes(
        crate::ascii::range_bytes(bin.as_slice(), 60, 64).as_slice(),
    );
    proof {
        assert(start_pe32 == spec_u32_at(b, 60));
    }
    let start_pe = start_pe32 as usize;
    let n = bin.len();
    proof {
        assert(start_pe + 98 <= n);
    }
    let magic_32 = read_u16_at(bin.as_slice(), start_pe + 28);
    let magic_64 = read_u16_at(bin.as_slice(), start_pe + 24);
    if magic_32 == 0x10b {
        bin.set(start_pe + 96, 2);
        bin.set(start_pe + 97, 0);
        Ok(())
    } else if magic_64 == 0x20b {
        bin.set(start_pe + 92, 2);
        bin.set(start_pe + 93, 0);
        Ok(())
    } else {
        Err(PeError::NoMagic)
    }
}

/// Read the little-endian number two bytes write.
fn read_u16_at(b: &[u8], i: usize) -> (r: u16)
    requires
        i + 2 <= b@.len(),
    ensures
        r == spec_u16_at(b@, i as int),
{
    proof {
        vstd::bytes::lemma_auto_spec_u16_to_from_le_bytes();
    }
    let n = b.len();
    proof {
        assert(i + 2 <= n);
    }
    vstd::bytes::u16_from_le_bytes(crate::ascii::range_bytes(b, i, i + 2).as_slice())
}

} // verus!
