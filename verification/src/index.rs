//! The index file: a header, a run of fixed-width big-endian records, each
//! with a bit-packed flags field, a path and padding to a multiple of eight
//! bytes, and a trailing checksum.

use crate::digest::{sha1_digest, sha1_of};
use crate::text::string_from_utf8;
use vstd::prelude::*;
use vstd::slice::slice_subrange;
use vstd::utf8::{decode_utf8, encode_utf8, valid_utf8};

verus! {

/// The only format version that is read or written.
pub const INDEX_VERSION: u32 = 2;

/// The length of a record before its path.
pub const ENTRY_FIXED_LEN: usize = 62;

/// The length of the trailing checksum.
pub const CHECKSUM_LEN: usize = 20;

/// The longest path, in bytes, that a record can hold.
pub const MAX_PATH_LEN: usize = 4095;

/// Bit 15 of the flags field: the assume-valid flag.
pub const FLAG_ASSUME_VALID: u16 = 0x8000;

/// Bits 14 and 13 of the flags field, once shifted down: the merge stage.
pub const FLAG_STAGE_MASK: u16 = 0x3;

/// How far the merge stage is shifted up in the flags field.
pub const FLAG_STAGE_SHIFT: u16 = 13;

/// Bits 12 to 0 of the flags field: the length of the path in bytes.
pub const FLAG_PATH_LEN_MASK: u16 = 0x1fff;

/// Why an index file cannot be read, or a list of entries cannot be written.
#[derive(Debug, Clone, Copy, PartialEq, Eq, Structural)]
pub enum IndexError {
    /// The data ends inside a field.
    ShortRead,
    /// The first four bytes are not `DIRC`.
    InvalidSignature,
    /// The format version is not 2.
    UnsupportedVersion,
    /// A merge stage is not one of 0, 1, 2, 3.
    InvalidStage,
    /// A path is not valid UTF-8.
    PathNotUtf8,
    /// A path is longer than the flags field can say.
    PathTooLong,
    /// There are more entries than the header can count.
    TooManyEntries,
}

/// Which side of an unresolved merge an entry stands for.
#[derive(Debug, Clone, Copy, PartialEq, Eq, Structural)]
pub enum MergeStatus {
    /// Not part of a merge.
    Unmerged,
    /// The common ancestor.
    Base,
    /// Our side.
    Ours,
    /// Their side.
    Theirs,
}

/// One staged file.
#[derive(Debug, Clone, PartialEq, Eq)]
pub struct IndexEntry {
    /// Creation time, seconds.
    pub ctime_secs: u32,
    /// Creation time, nanoseconds.
    pub ctime_nanos: u32,
    /// Modification time, seconds.
    pub mtime_secs: u32,
    /// Modification time, nanoseconds.
    pub mtime_nanos: u32,
    /// Device id.
    pub dev: u32,
    /// Inode number.
    pub ino: u32,
    /// File mode.
    pub mode: u32,
    /// User id.
    pub uid: u32,
    /// Group id.
    pub gid: u32,
    /// File size, truncated to sixteen bits.
    pub size: u16,
    /// The assume-valid flag.
    pub assume_valid: bool,
    /// The merge stage.
    pub stage: MergeStatus,
    /// Digest of the file's content.
    pub sha1: [u8; 20],
    /// Path of the file.
    pub path: String,
}

/// What an [`IndexEntry`] holds, as mathematical values.
pub struct IndexEntryView {
    pub ctime_secs: u32,
    pub ctime_nanos: u32,
    pub mtime_secs: u32,
    pub mtime_nanos: u32,
    pub dev: u32,
    pub ino: u32,
    pub mode: u32,
    pub uid: u32,
    pub gid: u32,
    pub size: u16,
    pub assume_valid: bool,
    pub stage: MergeStatus,
    pub sha1: Seq<u8>,
    pub path: Seq<char>,
}

impl View for IndexEntry {
    type V = IndexEntryView;

    open spec fn view(&self) -> IndexEntryView {
        IndexEntryView {
            ctime_secs: self.ctime_secs,
            ctime_nanos: self.ctime_nanos,
            mtime_secs: self.mtime_secs,
            mtime_nanos: self.mtime_nanos,
            dev: self.dev,
            ino: self.ino,
            mode: self.mode,
            uid: self.uid,
            gid: self.gid,
            size: self.size,
            assume_valid: self.assume_valid,
            stage: self.stage,
            sha1: self.sha1@,
            path: self.path@,
        }
    }
}

/// The views of a list of entries, in order.
pub open spec fn entry_views(entries: Seq<IndexEntry>) -> Seq<IndexEntryView> {
    Seq::new(entries.len(), |i: int| entries[i]@)
}

// ---------------------------------------------------------------------------
// Big-endian integers
// ---------------------------------------------------------------------------

/// The four bytes of `v`, most significant first.
pub open spec fn be_u32(v: u32) -> Seq<u8> {
    seq![
        (v / 0x100_0000) as u8,
        (v / 0x1_0000 % 0x100) as u8,
        (v / 0x100 % 0x100) as u8,
        (v % 0x100) as u8,
    ]
}

/// The two bytes of `v`, most significant first.
pub open spec fn be_u16(v: u16) -> Seq<u8> {
    seq![(v / 0x100) as u8, (v % 0x100) as u8]
}

/// The number whose big-endian bytes are the four at `pos` in `data`.
pub open spec fn u32_at(data: Seq<u8>, pos: int) -> u32 {
    (data[pos] * 0x100_0000 + data[pos + 1] * 0x1_0000 + data[pos + 2] * 0x100 + data[pos
        + 3]) as u32
}

/// The number whose big-endian bytes are the two at `pos` in `data`.
pub open spec fn u16_at(data: Seq<u8>, pos: int) -> u16 {
    (data[pos] * 0x100 + data[pos + 1]) as u16
}

// ---------------------------------------------------------------------------
// The flags field
// ---------------------------------------------------------------------------

/// The number that stands for a merge stage in the flags field.
pub open spec fn stage_code(stage: MergeStatus) -> u16 {
    match stage {
        MergeStatus::Unmerged => 0,
        MergeStatus::Base => 1,
        MergeStatus::Ours => 2,
        MergeStatus::Theirs => 3,
    }
}

/// The merge stage that `code` stands for, if it is one of 0, 1, 2, 3.
pub open spec fn stage_of_code(code: int) -> Option<MergeStatus> {
    if code == 0 {
        Some(MergeStatus::Unmerged)
    } else if code == 1 {
        Some(MergeStatus::Base)
    } else if code == 2 {
        Some(MergeStatus::Ours)
    } else if code == 3 {
        Some(MergeStatus::Theirs)
    } else {
        None
    }
}

/// The flags field of an entry: bit 15 is the assume-valid flag, bits 14 and
/// 13 the merge stage, bits 12 to 0 the length of the path.
pub open spec fn pack_flags(assume_valid: bool, stage: MergeStatus, path_len: u16) -> u16 {
    (if assume_valid {
        FLAG_ASSUME_VALID
    } else {
        0u16
    }) | (stage_code(stage) << FLAG_STAGE_SHIFT) | (path_len & FLAG_PATH_LEN_MASK)
}

/// The assume-valid flag in a flags field.
pub open spec fn flags_assume_valid(flags: u16) -> bool {
    flags & FLAG_ASSUME_VALID != 0
}

/// The merge stage's number in a flags field.
pub open spec fn flags_stage(flags: u16) -> u16 {
    (flags >> FLAG_STAGE_SHIFT) & FLAG_STAGE_MASK
}

/// The length of the path in a flags field.
pub open spec fn flags_path_len(flags: u16) -> u16 {
    flags & FLAG_PATH_LEN_MASK
}

/// The number of NUL bytes after a path of `path_len` bytes: between one and
/// eight, so that the record's length is a multiple of eight.
pub open spec fn null_padding(path_len: int) -> int {
    8 - (6 + path_len) % 8
}

impl MergeStatus {
    /// The merge stage that `value` stands for.
    pub fn try_from(value: u8) -> (res: Result<MergeStatus, IndexError>)
        ensures
            match res {
                Ok(stage) => stage_of_code(value as int) == Some(stage),
                Err(e) => e == IndexError::InvalidStage && stage_of_code(value as int) is None,
            },
    {
        match value {
            0 => Ok(MergeStatus::Unmerged),
            1 => Ok(MergeStatus::Base),
            2 => Ok(MergeStatus::Ours),
            3 => Ok(MergeStatus::Theirs),
            _ => Err(IndexError::InvalidStage),
        }
    }

    /// The number that stands for this stage in the flags field.
    pub fn code(&self) -> (code: u16)
        ensures
            code == stage_code(*self),
    {
        match self {
            MergeStatus::Unmerged => 0,
            MergeStatus::Base => 1,
            MergeStatus::Ours => 2,
            MergeStatus::Theirs => 3,
        }
    }
}

/// The number of NUL bytes that follow a path of `path_len` bytes.
pub fn calc_null_padding(path_len: usize) -> (padding: usize)
    ensures
        padding == null_padding(path_len as int),
        1 <= padding <= 8,
        (ENTRY_FIXED_LEN + path_len + padding) % 8 == 0,
{
    8 - (6 + path_len % 8) % 8
}

// ---------------------------------------------------------------------------
// Entries for files
// ---------------------------------------------------------------------------

/// Reads the clock with `std::time::SystemTime::now`, and measures it from
/// `UNIX_EPOCH` with `duration_since`: whole seconds and the nanoseconds
/// beyond them.
///
/// Trusted: the nanoseconds are less than a second, as `subsec_nanos` says.
/// Nothing is claimed of the seconds, nor that the clock is past 1970.
#[verifier::external_body]
fn unix_time_now() -> (now: Option<(u64, u32)>)
    ensures
        now matches Some((_, nanos)) ==> nanos < 1_000_000_000,
{
    match std::time::SystemTime::now().duration_since(std::time::UNIX_EPOCH) {
        Ok(elapsed) => Some((elapsed.as_secs(), elapsed.subsec_nanos())),
        Err(_) => None,
    }
}

/// The time stamp for a number of seconds and nanoseconds since 1970: the
/// seconds are cut to thirty-two bits.
pub fn unix_time_of(secs: u64, nanos: u32) -> (stamp: (u32, u32))
    ensures
        stamp.0 == secs % 0x1_0000_0000,
        stamp.1 == nanos,
{
    ((secs % 0x1_0000_0000) as u32, nanos)
}

/// The time now, as seconds and nanoseconds since 1970; `None` where the
/// clock stands before 1970.
pub fn current_unix_time() -> (stamp: Option<(u32, u32)>)
    ensures
        stamp matches Some((_, nanos)) ==> nanos < 1_000_000_000,
{
    unix_time_from(unix_time_now())
}

/// The time stamp for what the clock gave: the seconds cut to thirty-two
/// bits and the nanoseconds as they are, or nothing where the clock gave
/// nothing.
pub fn unix_time_from(now: Option<(u64, u32)>) -> (stamp: Option<(u32, u32)>)
    ensures
        match now {
            Some((secs, nanos)) => stamp == Some(((secs % 0x1_0000_0000) as u32, nanos)),
            None => stamp is None,
        },
{
    match now {
        Some((secs, nanos)) => Some(unix_time_of(secs, nanos)),
        None => None,
    }
}

/// The digest of the content of a file.
pub fn compute_sha1(content: &[u8]) -> (digest: [u8; 20])
    ensures
        digest == sha1_of(content@),
{
    sha1_digest(content)
}

impl IndexEntry {
    /// The entry for a file that is staged now: both times are `now`, the
    /// device and the inode are cut to thirty-two bits and the size to
    /// sixteen, and it is neither assumed valid nor part of a merge.
    pub fn for_file(
        path: String,
        now: (u32, u32),
        dev: u64,
        ino: u64,
        mode: u32,
        uid: u32,
        gid: u32,
        len: u64,
        sha1: [u8; 20],
    ) -> (entry: IndexEntry)
        ensures
            entry@ == (IndexEntryView {
                ctime_secs: now.0,
                ctime_nanos: now.1,
                mtime_secs: now.0,
                mtime_nanos: now.1,
                dev: (dev % 0x1_0000_0000) as u32,
                ino: (ino % 0x1_0000_0000) as u32,
                mode,
                uid,
                gid,
                size: (len % 0x1_0000) as u16,
                assume_valid: false,
                stage: MergeStatus::Unmerged,
                sha1: sha1@,
                path: path@,
            }),
    {
        IndexEntry {
            ctime_secs: now.0,
            ctime_nanos: now.1,
            mtime_secs: now.0,
            mtime_nanos: now.1,
            dev: (dev % 0x1_0000_0000) as u32,
            ino: (ino % 0x1_0000_0000) as u32,
            mode,
            uid,
            gid,
            size: (len % 0x1_0000) as u16,
            assume_valid: false,
            stage: MergeStatus::Unmerged,
            sha1,
            path,
        }
    }
}

// ---------------------------------------------------------------------------
// Reading
// ---------------------------------------------------------------------------

/// The four bytes `DIRC` that an index file starts with.
pub open spec fn index_signature() -> Seq<u8> {
    seq![0x44u8, 0x49u8, 0x52u8, 0x43u8]
}

/// The record that starts at `pos` in `data`, and where the next one starts.
///
/// The two bytes after the flags field are passed over, whatever they hold,
/// and so are the padding bytes; both have to be there.
pub open spec fn entry_at(data: Seq<u8>, pos: int) -> Result<(IndexEntryView, int), IndexError> {
    if data.len() < pos + ENTRY_FIXED_LEN {
        Err(IndexError::ShortRead)
    } else {
        let flags = u16_at(data, pos + 58);
        let path_end = pos + ENTRY_FIXED_LEN + flags_path_len(flags);
        let next = path_end + null_padding(flags_path_len(flags) as int);
        if data.len() < path_end {
            Err(IndexError::ShortRead)
        } else if !valid_utf8(data.subrange(pos + ENTRY_FIXED_LEN, path_end)) {
            Err(IndexError::PathNotUtf8)
        } else if data.len() < next {
            Err(IndexError::ShortRead)
        } else {
            Ok(
                (
                    IndexEntryView {
                        ctime_secs: u32_at(data, pos),
                        ctime_nanos: u32_at(data, pos + 4),
                        mtime_secs: u32_at(data, pos + 8),
                        mtime_nanos: u32_at(data, pos + 12),
                        dev: u32_at(data, pos + 16),
                        ino: u32_at(data, pos + 20),
                        mode: u32_at(data, pos + 24),
                        uid: u32_at(data, pos + 28),
                        gid: u32_at(data, pos + 32),
                        size: u16_at(data, pos + 36),
                        assume_valid: flags_assume_valid(flags),
                        stage: stage_of_code(flags_stage(flags) as int)->0,
                        sha1: data.subrange(pos + 38, pos + 58),
                        path: decode_utf8(data.subrange(pos + ENTRY_FIXED_LEN, path_end)),
                    },
                    next,
                ),
            )
        }
    }
}

/// The `count` records that start at `pos` in `data`, and where they end.
pub open spec fn entries_at(data: Seq<u8>, pos: int, count: nat) -> Result<
    (Seq<IndexEntryView>, int),
    IndexError,
>
    decreases count,
{
    if count == 0 {
        Ok((Seq::empty(), pos))
    } else {
        match entry_at(data, pos) {
            Err(e) => Err(e),
            Ok((first, next)) => match entries_at(data, next, (count - 1) as nat) {
                Err(e) => Err(e),
                Ok((rest, end)) => Ok((seq![first] + rest, end)),
            },
        }
    }
}

/// The entries of the index file `data`.
///
/// The signature and the version are checked, then as many records are read
/// as the header counts, then twenty bytes of checksum have to follow. The
/// checksum is not compared with a digest of the file, and what follows it is
/// not looked at.
pub open spec fn index_decoding(data: Seq<u8>) -> Result<Seq<IndexEntryView>, IndexError> {
    if data.len() < 12 {
        Err(IndexError::ShortRead)
    } else if data.subrange(0, 4) != index_signature() {
        Err(IndexError::InvalidSignature)
    } else if u32_at(data, 4) != INDEX_VERSION {
        Err(IndexError::UnsupportedVersion)
    } else {
        checksum_after(data, entries_at(data, 12, u32_at(data, 8) as nat))
    }
}

/// The entries that were read, once the checksum is found to follow them.
pub open spec fn checksum_after(
    data: Seq<u8>,
    read: Result<(Seq<IndexEntryView>, int), IndexError>,
) -> Result<Seq<IndexEntryView>, IndexError> {
    match read {
        Err(e) => Err(e),
        Ok((entries, end)) => if data.len() < end + CHECKSUM_LEN {
            Err(IndexError::ShortRead)
        } else {
            Ok(entries)
        },
    }
}

/// What was read so far, followed by what the rest of the records gives.
pub open spec fn entries_then(
    done: Seq<IndexEntryView>,
    rest: Result<(Seq<IndexEntryView>, int), IndexError>,
) -> Result<(Seq<IndexEntryView>, int), IndexError> {
    match rest {
        Err(e) => Err(e),
        Ok((entries, end)) => Ok((done + entries, end)),
    }
}

/// Reads the big-endian number in the four bytes at `pos`.
pub fn read_u32_be(data: &[u8], pos: usize) -> (res: Result<u32, IndexError>)
    ensures
        match res {
            Ok(v) => pos + 4 <= data@.len() && v == u32_at(data@, pos as int),
            Err(e) => e == IndexError::ShortRead && pos + 4 > data@.len(),
        },
{
    if pos > data.len() || data.len() - pos < 4 {
        return Err(IndexError::ShortRead);
    }
    let b0: u32 = data[pos] as u32;
    let b1: u32 = data[pos + 1] as u32;
    let b2: u32 = data[pos + 2] as u32;
    let b3: u32 = data[pos + 3] as u32;
    Ok(b0 * 0x100_0000 + b1 * 0x1_0000 + b2 * 0x100 + b3)
}

/// Reads the big-endian number in the two bytes at `pos`.
pub fn read_u16_be(data: &[u8], pos: usize) -> (res: Result<u16, IndexError>)
    ensures
        match res {
            Ok(v) => pos + 2 <= data@.len() && v == u16_at(data@, pos as int),
            Err(e) => e == IndexError::ShortRead && pos + 2 > data@.len(),
        },
{
    if pos > data.len() || data.len() - pos < 2 {
        return Err(IndexError::ShortRead);
    }
    let b0: u16 = data[pos] as u16;
    let b1: u16 = data[pos + 1] as u16;
    Ok(b0 * 0x100 + b1)
}

/// Reads the `N` bytes at `pos`.
pub fn read_n_be<const N: usize>(data: &[u8], pos: usize) -> (res: Result<[u8; N], IndexError>)
    ensures
        match res {
            Ok(bytes) => pos + N <= data@.len() && bytes@ == data@.subrange(
                pos as int,
                pos + N,
            ),
            Err(e) => e == IndexError::ShortRead && pos + N > data@.len(),
        },
{
    if pos > data.len() || data.len() - pos < N {
        return Err(IndexError::ShortRead);
    }
    let len: usize = data.len();
    let mut bytes: [u8; N] = [0u8;N];
    let mut i: usize = 0;
    while i < N
        invariant
            i <= N,
            len == data@.len(),
            pos + N <= len,
            forall|j: int| 0 <= j < i ==> bytes@[j] == data@[pos + j],
        decreases N - i,
    {
        bytes[i] = data[pos + i];
        i = i + 1;
    }
    Ok(bytes)
}

/// The assume-valid flag of a flags field.
pub fn assume_valid_of(flags: u16) -> (assume_valid: bool)
    ensures
        assume_valid == flags_assume_valid(flags),
{
    flags & FLAG_ASSUME_VALID != 0
}

/// The number of the merge stage in a flags field.
pub fn stage_code_of(flags: u16) -> (code: u8)
    ensures
        code == flags_stage(flags),
        code <= 3,
{
    let code: u16 = (flags >> FLAG_STAGE_SHIFT) & FLAG_STAGE_MASK;
    assert(code <= 3) by (bit_vector)
        requires
            code == (flags >> 13u16) & 0x3u16,
    ;
    code as u8
}

/// The length of the path that a flags field announces.
pub fn path_len_of(flags: u16) -> (path_len: usize)
    ensures
        path_len == flags_path_len(flags),
        path_len <= 0x1fff,
{
    let len: u16 = flags & FLAG_PATH_LEN_MASK;
    assert(len <= 0x1fff) by (bit_vector)
        requires
            len == flags & 0x1fffu16,
    ;
    len as usize
}

/// Reads the record that starts at `pos`, and says where the next one starts.
pub fn read_entry(data: &[u8], pos: usize) -> (res: Result<(IndexEntry, usize), IndexError>)
    ensures
        match res {
            Ok((entry, next)) => entry_at(data@, pos as int) == Ok::<
                (IndexEntryView, int),
                IndexError,
            >((entry@, next as int)) && next <= data@.len(),
            Err(e) => entry_at(data@, pos as int) == Err::<(IndexEntryView, int), IndexError>(e),
        },
{
    if pos > data.len() || data.len() - pos < ENTRY_FIXED_LEN {
        return Err(IndexError::ShortRead);
    }
    let ctime_secs: u32 = read_u32_be(data, pos)?;
    let ctime_nanos: u32 = read_u32_be(data, pos + 4)?;
    let mtime_secs: u32 = read_u32_be(data, pos + 8)?;
    let mtime_nanos: u32 = read_u32_be(data, pos + 12)?;
    let dev: u32 = read_u32_be(data, pos + 16)?;
    let ino: u32 = read_u32_be(data, pos + 20)?;
    let mode: u32 = read_u32_be(data, pos + 24)?;
    let uid: u32 = read_u32_be(data, pos + 28)?;
    let gid: u32 = read_u32_be(data, pos + 32)?;
    let size: u16 = read_u16_be(data, pos + 36)?;
    let sha1: [u8; 20] = read_n_be::<20>(data, pos + 38)?;
    let flags: u16 = read_u16_be(data, pos + 58)?;
    let assume_valid: bool = assume_valid_of(flags);
    let stage: MergeStatus = MergeStatus::try_from(stage_code_of(flags))?;
    let path_len: usize = path_len_of(flags);

    let path_start: usize = pos + ENTRY_FIXED_LEN;
    if data.len() - path_start < path_len {
        return Err(IndexError::ShortRead);
    }
    let path_end: usize = path_start + path_len;
    let path: String = match string_from_utf8(slice_subrange(data, path_start, path_end)) {
        Some(path) => path,
        None => {
            return Err(IndexError::PathNotUtf8);
        },
    };

    let padding: usize = calc_null_padding(path_len);
    if data.len() - path_end < padding {
        return Err(IndexError::ShortRead);
    }
    let entry = IndexEntry {
        ctime_secs,
        ctime_nanos,
        mtime_secs,
        mtime_nanos,
        dev,
        ino,
        mode,
        uid,
        gid,
        size,
        assume_valid,
        stage,
        sha1,
        path,
    };
    Ok((entry, path_end + padding))
}

/// Reads the entries of an index file from its bytes.
pub fn read_git_index(data: &[u8]) -> (res: Result<Vec<IndexEntry>, IndexError>)
    ensures
        match res {
            Ok(entries) => index_decoding(data@) == Ok::<Seq<IndexEntryView>, IndexError>(
                entry_views(entries@),
            ),
            Err(e) => index_decoding(data@) == Err::<Seq<IndexEntryView>, IndexError>(e),
        },
{
    if data.len() < 12 {
        return Err(IndexError::ShortRead);
    }
    if data[0] != 0x44 || data[1] != 0x49 || data[2] != 0x52 || data[3] != 0x43 {
        return Err(IndexError::InvalidSignature);
    }
    assert(data@.subrange(0, 4) =~= index_signature());
    let version: u32 = read_u32_be(data, 4)?;
    if version != INDEX_VERSION {
        return Err(IndexError::UnsupportedVersion);
    }
    let count: u32 = read_u32_be(data, 8)?;

    let mut entries: Vec<IndexEntry> = Vec::new();
    let mut pos: usize = 12;
    let mut read: u32 = 0;
    assert(entry_views(entries@) =~= Seq::<IndexEntryView>::empty());
    while read < count
        invariant
            read <= count,
            pos <= data@.len(),
            index_decoding(data@) == checksum_after(data@, entries_at(data@, 12, count as nat)),
            entries_at(data@, 12, count as nat) == entries_then(
                entry_views(entries@),
                entries_at(data@, pos as int, (count - read) as nat),
            ),
        decreases count - read,
    {
        let ghost done = entry_views(entries@);
        let (entry, next) = read_entry(data, pos)?;
        proof {
            let rest = entries_at(data@, next as int, (count - read - 1) as nat);
            match rest {
                Ok((found, end)) => {
                    assert(done + (seq![entry@] + found) =~= done.push(entry@) + found);
                },
                Err(_) => {},
            }
        }
        entries.push(entry);
        assert(entry_views(entries@) =~= done.push(entry@));
        pos = next;
        read = read + 1;
    }
    if data.len() - pos < CHECKSUM_LEN {
        return Err(IndexError::ShortRead);
    }
    Ok(entries)
}

// ---------------------------------------------------------------------------
// Writing
// ---------------------------------------------------------------------------

/// `n` NUL bytes.
pub open spec fn zeros(n: int) -> Seq<u8> {
    Seq::new(n as nat, |i: int| 0u8)
}

/// Whether an entry fits the record layout: its path, as UTF-8, is no longer
/// than the flags field can say.
pub open spec fn encodable(entry: IndexEntryView) -> bool {
    encode_utf8(entry.path).len() <= MAX_PATH_LEN
}

/// The record of one entry: the nine four-byte fields, the size, the digest,
/// the flags, two zero bytes, the path and its padding.
#[verifier::opaque]
pub open spec fn entry_encoding(entry: IndexEntryView) -> Seq<u8> {
    let path = encode_utf8(entry.path);
    be_u32(entry.ctime_secs) + be_u32(entry.ctime_nanos) + be_u32(entry.mtime_secs) + be_u32(
        entry.mtime_nanos,
    ) + be_u32(entry.dev) + be_u32(entry.ino) + be_u32(entry.mode) + be_u32(entry.uid) + be_u32(
        entry.gid,
    ) + be_u16(entry.size) + entry.sha1 + be_u16(
        pack_flags(entry.assume_valid, entry.stage, path.len() as u16),
    ) + zeros(2) + path + zeros(null_padding(path.len() as int))
}

/// The length of the record of an entry.
pub open spec fn entry_encoding_len(entry: IndexEntryView) -> int {
    ENTRY_FIXED_LEN + encode_utf8(entry.path).len() + null_padding(
        encode_utf8(entry.path).len() as int,
    )
}

/// The records of a list of entries, one after the other.
pub open spec fn entries_encoding(entries: Seq<IndexEntryView>) -> Seq<u8>
    decreases entries.len(),
{
    if entries.len() == 0 {
        Seq::empty()
    } else {
        entry_encoding(entries[0]) + entries_encoding(entries.drop_first())
    }
}

/// An index file without its checksum: signature, version, count, records.
pub open spec fn index_body(entries: Seq<IndexEntryView>) -> Seq<u8> {
    index_signature() + be_u32(INDEX_VERSION) + be_u32(entries.len() as u32) + entries_encoding(
        entries,
    )
}

/// An index file: its body, then the SHA-1 digest of the body.
pub open spec fn index_encoding(entries: Seq<IndexEntryView>) -> Seq<u8> {
    index_body(entries) + sha1_of(index_body(entries))@
}

/// What `write_git_index` returns on `entries`.
pub open spec fn index_encoding_checked(entries: Seq<IndexEntryView>) -> Result<
    Seq<u8>,
    IndexError,
> {
    if entries.len() > u32::MAX {
        Err(IndexError::TooManyEntries)
    } else if exists|i: int| 0 <= i < entries.len() && !encodable(#[trigger] entries[i]) {
        Err(IndexError::PathTooLong)
    } else {
        Ok(index_encoding(entries))
    }
}

/// Appends the four bytes of `v`, most significant first.
pub fn write_u32_be(out: &mut Vec<u8>, v: u32)
    ensures
        final(out)@ == old(out)@ + be_u32(v),
{
    out.push((v / 0x100_0000) as u8);
    out.push((v / 0x1_0000 % 0x100) as u8);
    out.push((v / 0x100 % 0x100) as u8);
    out.push((v % 0x100) as u8);
}

/// Appends the two bytes of `v`, most significant first.
pub fn write_u16_be(out: &mut Vec<u8>, v: u16)
    ensures
        final(out)@ == old(out)@ + be_u16(v),
{
    out.push((v / 0x100) as u8);
    out.push((v % 0x100) as u8);
}

/// Appends `bytes`.
pub fn write_bytes(out: &mut Vec<u8>, bytes: &[u8])
    ensures
        final(out)@ == old(out)@ + bytes@,
{
    out.extend_from_slice(bytes);
}

/// Appends `n` NUL bytes.
pub fn write_zeros(out: &mut Vec<u8>, n: usize)
    ensures
        final(out)@ == old(out)@ + zeros(n as int),
{
    let mut i: usize = 0;
    while i < n
        invariant
            i <= n,
            out@ == old(out)@ + zeros(i as int),
        decreases n - i,
    {
        out.push(0u8);
        i = i + 1;
    }
}

/// The flags field for an entry.
pub fn flags_of(assume_valid: bool, stage: MergeStatus, path_len: u16) -> (flags: u16)
    ensures
        flags == pack_flags(assume_valid, stage, path_len),
{
    let high: u16 = if assume_valid {
        FLAG_ASSUME_VALID
    } else {
        0
    };
    high | (stage.code() << FLAG_STAGE_SHIFT) | (path_len & FLAG_PATH_LEN_MASK)
}

/// Appends the record of `entry`, unless its path is too long for the layout.
pub fn write_entry(out: &mut Vec<u8>, entry: &IndexEntry) -> (res: Result<(), IndexError>)
    ensures
        match res {
            Ok(()) => encodable(entry@) && final(out)@ == old(out)@ + entry_encoding(entry@),
            Err(e) => e == IndexError::PathTooLong && !encodable(entry@) && final(out)@ == old(
                out,
            )@,
        },
{
    let path: &[u8] = entry.path.as_str().as_bytes();
    if path.len() > MAX_PATH_LEN {
        return Err(IndexError::PathTooLong);
    }
    write_u32_be(out, entry.ctime_secs);
    write_u32_be(out, entry.ctime_nanos);
    write_u32_be(out, entry.mtime_secs);
    write_u32_be(out, entry.mtime_nanos);
    write_u32_be(out, entry.dev);
    write_u32_be(out, entry.ino);
    write_u32_be(out, entry.mode);
    write_u32_be(out, entry.uid);
    write_u32_be(out, entry.gid);
    write_u16_be(out, entry.size);
    write_bytes(out, entry.sha1.as_slice());
    write_u16_be(out, flags_of(entry.assume_valid, entry.stage, path.len() as u16));
    write_zeros(out, 2);
    write_bytes(out, path);
    write_zeros(out, calc_null_padding(path.len()));
    assert(out@ =~= old(out)@ + entry_encoding(entry@)) by {
        reveal(entry_encoding);
    }
    Ok(())
}

/// The records of a list grow by one record when the list grows by one entry.
pub proof fn lemma_entries_encoding_push(entries: Seq<IndexEntryView>, entry: IndexEntryView)
    ensures
        entries_encoding(entries.push(entry)) == entries_encoding(entries) + entry_encoding(entry),
    decreases entries.len(),
{
    if entries.len() == 0 {
        assert(entries.push(entry).drop_first() =~= Seq::<IndexEntryView>::empty());
        assert(entries_encoding(Seq::<IndexEntryView>::empty()) =~= Seq::<u8>::empty());
    } else {
        lemma_entries_encoding_push(entries.drop_first(), entry);
        assert(entries.push(entry).drop_first() =~= entries.drop_first().push(entry));
    }
}

/// Writes an index file for `entries`, in the order given: the header, one
/// record for each entry, and the SHA-1 digest of all that.
pub fn write_git_index(entries: &[IndexEntry]) -> (res: Result<Vec<u8>, IndexError>)
    ensures
        match res {
            Ok(data) => index_encoding_checked(entry_views(entries@)) == Ok::<
                Seq<u8>,
                IndexError,
            >(data@),
            Err(e) => index_encoding_checked(entry_views(entries@)) == Err::<Seq<u8>, IndexError>(
                e,
            ),
        },
{
    let n: usize = entries.len();
    if n > u32::MAX as usize {
        return Err(IndexError::TooManyEntries);
    }
    let ghost views = entry_views(entries@);
    let mut out: Vec<u8> = Vec::new();
    out.push(0x44u8);
    out.push(0x49u8);
    out.push(0x52u8);
    out.push(0x43u8);
    write_u32_be(&mut out, INDEX_VERSION);
    write_u32_be(&mut out, n as u32);
    let ghost header = out@;
    let mut i: usize = 0;
    while i < n
        invariant
            i <= n,
            n == entries@.len(),
            n <= u32::MAX,
            views == entry_views(entries@),
            header == index_signature() + be_u32(INDEX_VERSION) + be_u32(n as u32),
            out@ == header + entries_encoding(views.take(i as int)),
            forall|j: int| 0 <= j < i ==> encodable(#[trigger] views[j]),
        decreases n - i,
    {
        match write_entry(&mut out, &entries[i]) {
            Ok(()) => {},
            Err(e) => {
                return Err(e);
            },
        }
        proof {
            lemma_entries_encoding_push(views.take(i as int), views[i as int]);
            assert(views.take(i + 1) =~= views.take(i as int).push(views[i as int]));
        }
        i = i + 1;
    }
    assert(views.take(n as int) =~= views);
    let checksum: [u8; 20] = sha1_digest(out.as_slice());
    write_bytes(&mut out, checksum.as_slice());
    Ok(out)
}

// ---------------------------------------------------------------------------
// Reading back what was written
// ---------------------------------------------------------------------------

proof fn lemma_u32_at_be_u32(data: Seq<u8>, pos: int, v: u32)
    requires
        0 <= pos,
        pos + 4 <= data.len(),
        data.subrange(pos, pos + 4) == be_u32(v),
    ensures
        u32_at(data, pos) == v,
{
}

proof fn lemma_u16_at_be_u16(data: Seq<u8>, pos: int, v: u16)
    requires
        0 <= pos,
        pos + 2 <= data.len(),
        data.subrange(pos, pos + 2) == be_u16(v),
    ensures
        u16_at(data, pos) == v,
{
}

/// The three parts of a flags field can be read back from it, as long as the
/// path length fits its thirteen bits.
pub proof fn lemma_flags_round_trip(assume_valid: bool, stage: MergeStatus, path_len: u16)
    requires
        path_len <= 0x1fff,
    ensures
        flags_assume_valid(pack_flags(assume_valid, stage, path_len)) == assume_valid,
        stage_of_code(flags_stage(pack_flags(assume_valid, stage, path_len)) as int) == Some(stage),
        flags_path_len(pack_flags(assume_valid, stage, path_len)) == path_len,
{
    let high: u16 = if assume_valid {
        0x8000
    } else {
        0
    };
    let code: u16 = stage_code(stage);
    let flags: u16 = high | (code << 13u16) | (path_len & 0x1fffu16);
    assert((flags & 0x8000u16 != 0) == (high == 0x8000u16) && (flags >> 13u16) & 0x3u16 == code
        && flags & 0x1fffu16 == path_len) by (bit_vector)
        requires
            flags == high | (code << 13u16) | (path_len & 0x1fffu16),
            high == 0x8000u16 || high == 0u16,
            code <= 3u16,
            path_len <= 0x1fffu16,
    ;
}

/// The length of a record is a multiple of eight bytes.
pub proof fn lemma_entry_encoding_len(entry: IndexEntryView)
    requires
        entry.sha1.len() == 20,
    ensures
        entry_encoding(entry).len() == entry_encoding_len(entry),
        entry_encoding(entry).len() % 8 == 0,
        entry_encoding(entry).len() >= ENTRY_FIXED_LEN + 1,
{
    assert(entry_encoding(entry).len() == entry_encoding_len(entry)) by {
        reveal(entry_encoding);
    }
}

/// A window of a window of `data` is a window of `data`.
proof fn lemma_window(data: Seq<u8>, pos: int, enc: Seq<u8>, from: int, to: int)
    requires
        0 <= pos,
        pos + enc.len() <= data.len(),
        data.subrange(pos, pos + enc.len()) == enc,
        0 <= from <= to <= enc.len(),
    ensures
        data.subrange(pos + from, pos + to) == enc.subrange(from, to),
{
}

/// Where each field stands in the record of an entry.
proof fn lemma_entry_encoding_fields(entry: IndexEntryView)
    requires
        entry.sha1.len() == 20,
    ensures
        ({
            let enc = entry_encoding(entry);
            let path = encode_utf8(entry.path);
            &&& enc.len() == ENTRY_FIXED_LEN + path.len() + null_padding(path.len() as int)
            &&& enc.subrange(0, 4) == be_u32(entry.ctime_secs)
            &&& enc.subrange(4, 8) == be_u32(entry.ctime_nanos)
            &&& enc.subrange(8, 12) == be_u32(entry.mtime_secs)
            &&& enc.subrange(12, 16) == be_u32(entry.mtime_nanos)
            &&& enc.subrange(16, 20) == be_u32(entry.dev)
            &&& enc.subrange(20, 24) == be_u32(entry.ino)
            &&& enc.subrange(24, 28) == be_u32(entry.mode)
            &&& enc.subrange(28, 32) == be_u32(entry.uid)
            &&& enc.subrange(32, 36) == be_u32(entry.gid)
            &&& enc.subrange(36, 38) == be_u16(entry.size)
            &&& enc.subrange(38, 58) == entry.sha1
            &&& enc.subrange(58, 60) == be_u16(
                pack_flags(entry.assume_valid, entry.stage, path.len() as u16),
            )
            &&& enc.subrange(62, 62 + path.len() as int) == path
        }),
{
    reveal(entry_encoding);
    // What follows the nine numbers leaves them where they stand.
}

/// A record that stands at `pos` in `data` is read back as the entry that it
/// was written for.
proof fn lemma_entry_at_encoding(data: Seq<u8>, pos: int, entry: IndexEntryView)
    requires
        0 <= pos,
        entry.sha1.len() == 20,
        encodable(entry),
        pos + entry_encoding(entry).len() <= data.len(),
        data.subrange(pos, pos + entry_encoding(entry).len()) == entry_encoding(entry),
    ensures
        entry_at(data, pos) == Ok::<(IndexEntryView, int), IndexError>(
            (entry, pos + entry_encoding(entry).len()),
        ),
{
    let enc = entry_encoding(entry);
    let path = encode_utf8(entry.path);
    let flags = pack_flags(entry.assume_valid, entry.stage, path.len() as u16);
    lemma_entry_encoding_fields(entry);
    lemma_flags_round_trip(entry.assume_valid, entry.stage, path.len() as u16);
    lemma_window(data, pos, enc, 0, 4);
    lemma_u32_at_be_u32(data, pos, entry.ctime_secs);
    lemma_window(data, pos, enc, 4, 8);
    lemma_u32_at_be_u32(data, pos + 4, entry.ctime_nanos);
    lemma_window(data, pos, enc, 8, 12);
    lemma_u32_at_be_u32(data, pos + 8, entry.mtime_secs);
    lemma_window(data, pos, enc, 12, 16);
    lemma_u32_at_be_u32(data, pos + 12, entry.mtime_nanos);
    lemma_window(data, pos, enc, 16, 20);
    lemma_u32_at_be_u32(data, pos + 16, entry.dev);
    lemma_window(data, pos, enc, 20, 24);
    lemma_u32_at_be_u32(data, pos + 20, entry.ino);
    lemma_window(data, pos, enc, 24, 28);
    lemma_u32_at_be_u32(data, pos + 24, entry.mode);
    lemma_window(data, pos, enc, 28, 32);
    lemma_u32_at_be_u32(data, pos + 28, entry.uid);
    lemma_window(data, pos, enc, 32, 36);
    lemma_u32_at_be_u32(data, pos + 32, entry.gid);
    lemma_window(data, pos, enc, 36, 38);
    lemma_u16_at_be_u16(data, pos + 36, entry.size);
    lemma_window(data, pos, enc, 38, 58);
    lemma_window(data, pos, enc, 58, 60);
    lemma_u16_at_be_u16(data, pos + 58, flags);
    lemma_window(data, pos, enc, 62, 62 + path.len() as int);
    vstd::utf8::encode_utf8_valid_utf8(entry.path);
    vstd::utf8::encode_utf8_decode_utf8(entry.path);
}

/// Records that stand one after the other at `pos` in `data` are read back as
/// the entries that they were written for.
proof fn lemma_entries_at_encoding(data: Seq<u8>, pos: int, entries: Seq<IndexEntryView>)
    requires
        0 <= pos,
        forall|i: int| 0 <= i < entries.len() ==> (#[trigger] entries[i]).sha1.len() == 20,
        forall|i: int| 0 <= i < entries.len() ==> encodable(#[trigger] entries[i]),
        pos + entries_encoding(entries).len() <= data.len(),
        data.subrange(pos, pos + entries_encoding(entries).len()) == entries_encoding(entries),
    ensures
        entries_at(data, pos, entries.len()) == Ok::<(Seq<IndexEntryView>, int), IndexError>(
            (entries, pos + entries_encoding(entries).len()),
        ),
    decreases entries.len(),
{
    if entries.len() == 0 {
        assert(entries =~= Seq::<IndexEntryView>::empty());
    } else {
        let first = entries[0];
        let rest = entries.drop_first();
        let all = entries_encoding(entries);
        let head = entry_encoding(first);
        let tail = entries_encoding(rest);
        lemma_entry_encoding_len(first);
        assert(data.subrange(pos, pos + head.len()) =~= head) by {
            assert forall|k: int| 0 <= k < head.len() implies data[pos + k] == head[k] by {
                assert(data.subrange(pos, pos + all.len())[k] == all[k]);
            }
        }
        lemma_entry_at_encoding(data, pos, first);
        let next = pos + head.len();
        assert(data.subrange(next, next + tail.len()) =~= tail) by {
            assert forall|k: int| 0 <= k < tail.len() implies data[next + k] == tail[k] by {
                assert(data.subrange(pos, pos + all.len())[head.len() + k] == all[head.len() + k]);
            }
        }
        lemma_entries_at_encoding(data, next, rest);
        assert(seq![first] + rest =~= entries);
    }
}

/// Writing a list of entries and reading the file back gives the same list:
/// every field of every entry, in the same order.
pub proof fn lemma_index_round_trip(entries: Seq<IndexEntryView>)
    requires
        forall|i: int| 0 <= i < entries.len() ==> (#[trigger] entries[i]).sha1.len() == 20,
    ensures
        index_encoding_checked(entries) matches Ok(data) ==> index_decoding(data) == Ok::<
            Seq<IndexEntryView>,
            IndexError,
        >(entries),
{
    if index_encoding_checked(entries) is Ok {
        let data = index_encoding(entries);
        let records = entries_encoding(entries);
        let n = entries.len() as u32;
        assert(data.subrange(0, 4) =~= index_signature());
        assert(data.subrange(4, 8) =~= be_u32(INDEX_VERSION));
        lemma_u32_at_be_u32(data, 4, INDEX_VERSION);
        assert(data.subrange(8, 12) =~= be_u32(n));
        lemma_u32_at_be_u32(data, 8, n);
        assert(data.subrange(12, 12 + records.len() as int) =~= records);
        lemma_entries_at_encoding(data, 12, entries);
    }
}

} // verus!
