//! The object store: names of objects, where they lie, and what is written
//! to and read from their files.

use crate::digest::{sha1_digest, sha1_of};
use crate::hex::{encode_in_place, hex_encoding, hex_value, lemma_encoding_is_hex};
use crate::objects::{
    format_header, header_len, lemma_frame_round_trip, object_frame, parse_size_spec,
    parse_type_spec, read_content_spec, read_header, read_header_spec, type_token, ObjectError,
    ObjectHeaderView, ObjectType,
};
use crate::text::{ascii_chars, ascii_string, decimal, find_byte, is_ascii_bytes, NUL};
use crate::tree::{decode_tree, tree_entries, tree_entry_views, TreeEntry, TreeEntryView};
use crate::zlib::{zlib_compress, zlib_compressed, zlib_decompress, zlib_decompressed};
use vstd::prelude::*;
use vstd::slice::{slice_subrange, slice_to_vec};
use vstd::string::{StrSliceExecFns, StringExecFns};
use vstd::utf8::is_ascii_chars;

verus! {

/// An object as it is hashed: its name and its bytes.
#[derive(Debug, Clone, PartialEq, Eq)]
pub struct HashedObject {
    /// The name of the object: forty hexadecimal digits.
    pub hash: String,
    /// The header and the content.
    pub blob: Vec<u8>,
}

/// An object as it is stored: its name, its file and the bytes of the file.
#[derive(Debug, Clone, PartialEq, Eq)]
pub struct StoredObject {
    /// The name of the object: forty hexadecimal digits.
    pub hash: String,
    /// The path of its file.
    pub path: String,
    /// What the file holds: the header and the content, compressed.
    pub data: Vec<u8>,
}

/// What is shown of an object: the content as it stands, or the entries of a
/// tree.
#[derive(Debug, Clone, PartialEq, Eq)]
pub enum ObjectBody {
    Raw(Vec<u8>),
    Tree(Vec<TreeEntry>),
}

/// What an [`ObjectBody`] holds.
pub enum ObjectBodyView {
    Raw(Seq<u8>),
    Tree(Seq<TreeEntryView>),
}

impl View for ObjectBody {
    type V = ObjectBodyView;

    open spec fn view(&self) -> ObjectBodyView {
        match self {
            ObjectBody::Raw(content) => ObjectBodyView::Raw(content@),
            ObjectBody::Tree(entries) => ObjectBodyView::Tree(tree_entry_views(entries@)),
        }
    }
}

// ---------------------------------------------------------------------------
// Names and paths
// ---------------------------------------------------------------------------

/// The name of the object with the bytes `frame`: its SHA-1 digest in
/// lowercase hexadecimal.
pub open spec fn object_name(frame: Seq<u8>) -> Seq<char> {
    ascii_chars(hex_encoding(sha1_of(frame)@))
}

/// Whether a name can be split into a directory and a file: it is ASCII and
/// has two characters at least.
pub open spec fn is_splittable(hash: Seq<char>) -> bool {
    is_ascii_chars(hash) && hash.len() >= 2
}

/// The path of the object `hash` under `object_dir`: a directory named by
/// the first two characters, and in it a file named by the rest.
pub open spec fn object_path(object_dir: Seq<char>, hash: Seq<char>) -> Seq<char> {
    object_dir + seq!['/'] + hash.take(2) + seq!['/'] + hash.skip(2)
}

/// The path of the file of an object.
pub fn get_object_path(object_dir: &str, hash: &str) -> (res: Result<String, ObjectError>)
    ensures
        match res {
            Ok(path) => is_splittable(hash@) && path@ == object_path(object_dir@, hash@),
            Err(e) => e == ObjectError::InvalidHash && !is_splittable(hash@),
        },
{
    if !hash.is_ascii() {
        return Err(ObjectError::InvalidHash);
    }
    let n: usize = hash.unicode_len();
    if n < 2 {
        return Err(ObjectError::InvalidHash);
    }
    proof {
        reveal_strlit("/");
    }
    let mut path: String = String::from_str(object_dir);
    path.append("/");
    path.append(hash.substring_ascii(0, 2));
    path.append("/");
    path.append(hash.substring_ascii(2, n));
    Ok(path)
}

/// Holds a path against what was found at it: where the object is asked to
/// exist and nothing is there, the object is not found.
pub fn require_object(path: String, check_exists: bool, exists: bool) -> (res: Result<
    String,
    ObjectError,
>)
    ensures
        match res {
            Ok(found) => found == path && (check_exists ==> exists),
            Err(e) => e == ObjectError::NotFound && check_exists && !exists,
        },
{
    if check_exists && !exists {
        Err(ObjectError::NotFound)
    } else {
        Ok(path)
    }
}

// ---------------------------------------------------------------------------
// Writing
// ---------------------------------------------------------------------------

/// The header of an object of a type with a content of `len` bytes, as it is
/// read back.
pub open spec fn header_view(object_type: ObjectType, len: nat) -> ObjectHeaderView {
    ObjectHeaderView { object_type: type_token(object_type), size: decimal(len) }
}

/// Frames `content` as an object of the given type and names it.
///
/// The name depends on the type and the content alone, and what is framed
/// reads back as that type and that content.
pub fn hash_object(object_type: ObjectType, content: &[u8]) -> (object: HashedObject)
    ensures
        object.blob@ == object_frame(object_type, content@),
        object.hash@ == object_name(object_frame(object_type, content@)),
        object.hash@.len() == 40,
        is_ascii_chars(object.hash@),
        read_content_spec(object.blob@) == Ok::<(ObjectHeaderView, Seq<u8>), ObjectError>(
            (header_view(object_type, content@.len()), content@),
        ),
{
    let mut blob: Vec<u8> = format_header(object_type, content.len());
    blob.extend_from_slice(content);
    let digest: [u8; 20] = sha1_digest(blob.as_slice());
    let mut hex: Vec<u8> = slice_to_vec(digest.as_slice());
    encode_in_place(&mut hex);
    proof {
        lemma_encoding_is_hex(digest@);
        assert(is_ascii_bytes(hex@));
        lemma_frame_round_trip(object_type, content@);
    }
    let hash: String = ascii_string(hex.as_slice());
    assert(is_ascii_chars(hash@));
    HashedObject { hash, blob }
}

/// What reading the stored bytes `data` gives: they are decompressed, then
/// read as an object.
pub open spec fn stored_content_spec(data: Seq<u8>) -> Result<
    (ObjectHeaderView, Seq<u8>),
    ObjectError,
> {
    match zlib_decompressed(data) {
        None => Err(ObjectError::CorruptStream),
        Some(stream) => read_content_spec(stream),
    }
}

/// Prepares the file of an object: its path under `object_dir`, and the
/// compressed bytes to write there.
///
/// What is returned for a name that can be split is the stream that the
/// compressor gives for `blob`, which decompresses to `blob` again.
pub fn write_blob(object_dir: &str, blob: &[u8], hash: &str) -> (res: Result<
    (String, Vec<u8>),
    ObjectError,
>)
    ensures
        match res {
            Ok((path, data)) => {
                &&& is_splittable(hash@)
                &&& path@ == object_path(object_dir@, hash@)
                &&& zlib_compressed(blob@) == Some(data@)
                &&& zlib_decompressed(data@) == Some(blob@)
            },
            Err(e) => if is_splittable(hash@) {
                e == ObjectError::CompressionFailed && zlib_compressed(blob@) is None
            } else {
                e == ObjectError::InvalidHash
            },
        },
{
    let path: String = get_object_path(object_dir, hash)?;
    match zlib_compress(blob) {
        Some(data) => Ok((path, data)),
        None => Err(ObjectError::CompressionFailed),
    }
}

/// Frames, names and compresses `content` as an object of the given type, to
/// be stored under `object_dir`.
///
/// The name is the digest of `<type> <size>\0<content>`; the same type and
/// content always give the same name, path and bytes; and what is stored reads
/// back as that type and that content.
pub fn write_object(object_dir: &str, object_type: ObjectType, content: &[u8]) -> (res: Result<
    StoredObject,
    ObjectError,
>)
    ensures
        match res {
            Ok(object) => {
                &&& object.hash@ == object_name(object_frame(object_type, content@))
                &&& object.path@ == object_path(object_dir@, object.hash@)
                &&& zlib_compressed(object_frame(object_type, content@)) == Some(object.data@)
                &&& stored_content_spec(object.data@) == Ok::<
                    (ObjectHeaderView, Seq<u8>),
                    ObjectError,
                >((header_view(object_type, content@.len()), content@))
            },
            Err(e) => e == ObjectError::CompressionFailed && zlib_compressed(
                object_frame(object_type, content@),
            ) is None,
        },
{
    let hashed: HashedObject = hash_object(object_type, content);
    let (path, data) = write_blob(object_dir, hashed.blob.as_slice(), hashed.hash.as_str())?;
    Ok(StoredObject { hash: hashed.hash, path, data })
}

// ---------------------------------------------------------------------------
// Reading
// ---------------------------------------------------------------------------

/// Decompresses the bytes of an object's file.
pub fn inflate_object(data: &[u8]) -> (res: Result<Vec<u8>, ObjectError>)
    ensures
        match res {
            Ok(stream) => zlib_decompressed(data@) == Some(stream@),
            Err(e) => e == ObjectError::CorruptStream && zlib_decompressed(data@) is None,
        },
{
    match zlib_decompress(data) {
        Some(stream) => Ok(stream),
        None => Err(ObjectError::CorruptStream),
    }
}

/// What is shown of the content of an object of a type: the entries of a
/// tree, and of any other object the content as it stands.
pub open spec fn body_spec(object_type: ObjectType, content: Seq<u8>) -> Result<
    ObjectBodyView,
    ObjectError,
> {
    if object_type == ObjectType::Tree {
        match tree_entries(content) {
            Err(e) => Err(e),
            Ok(entries) => Ok(ObjectBodyView::Tree(entries)),
        }
    } else {
        Ok(ObjectBodyView::Raw(content))
    }
}

/// What is shown of the decompressed object `stream`. The header is read and
/// the type has to be known; the content is read, as entries where the object
/// is a tree; then the size in the header has to be the length of the
/// content.
pub open spec fn pretty_spec(stream: Seq<u8>) -> Result<ObjectBodyView, ObjectError> {
    match read_header_spec(stream, false) {
        Err(e) => Err(e),
        Ok(header) => {
            let content = stream.skip(header_len(stream)->0);
            match body_spec(parse_type_spec(header.object_type)->Ok_0, content) {
                Err(e) => Err(e),
                Ok(body) => match parse_size_spec(header.size) {
                    Err(e) => Err(e),
                    Ok(size) => if size != content.len() {
                        Err(ObjectError::SizeMismatch)
                    } else {
                        Ok(body)
                    },
                },
            }
        },
    }
}

/// Reads a decompressed object for display, and validates it.
pub fn read_object_pretty(stream: &[u8]) -> (res: Result<ObjectBody, ObjectError>)
    ensures
        match res {
            Ok(body) => pretty_spec(stream@) == Ok::<ObjectBodyView, ObjectError>(body@),
            Err(e) => pretty_spec(stream@) == Err::<ObjectBodyView, ObjectError>(e),
        },
{
    let header = read_header(stream, false)?;
    let nul: usize = find_byte(stream, NUL, 0);
    let end: usize = stream.len();
    let content: &[u8] = slice_subrange(stream, nul + 1, end);
    let object_type: ObjectType = header.parse_type()?;
    let body: ObjectBody = match object_type {
        ObjectType::Tree => ObjectBody::Tree(decode_tree(content)?.0),
        _ => ObjectBody::Raw(slice_to_vec(content)),
    };
    let size: usize = header.parse_size()?;
    if size != content.len() {
        return Err(ObjectError::SizeMismatch);
    }
    Ok(body)
}

} // verus!
