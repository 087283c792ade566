//! Loose objects: the type tokens, the header `<type> <size>\0` and the
//! framing of content behind it.

use crate::text::{
    decimal, find_byte, find_from, format_decimal, is_utf8, lex_order, parse_decimal, parse_usize,
    Order, NUL, SPACE,
};
use vstd::prelude::*;
use vstd::slice::slice_subrange;
use vstd::utf8::valid_utf8;

verus! {

/// The four kinds of object.
#[derive(Debug, Clone, Copy, PartialEq, Eq, Structural)]
pub enum ObjectType {
    Blob,
    Tree,
    Commit,
    Tag,
}

/// Why an object cannot be read.
#[derive(Debug, Clone, Copy, PartialEq, Eq, Structural)]
pub enum ObjectError {
    /// The header has no NUL at its end, or no space between type and size.
    InvalidHeader,
    /// The type token is none of the four, and not valid UTF-8 either.
    TypeNotUtf8,
    /// The type token is none of `blob`, `tree`, `commit`, `tag`.
    UnknownType,
    /// The size is not valid UTF-8.
    SizeNotUtf8,
    /// The size is not a decimal number that fits the machine.
    SizeNotANumber,
    /// The size in the header is not the length of the content.
    SizeMismatch,
    /// The content of a tree ends inside an entry.
    TruncatedTree,
    /// The compressed data is not a zlib stream.
    CorruptStream,
    /// The data could not be compressed.
    CompressionFailed,
    /// An object name is too short to be split, or not ASCII.
    InvalidHash,
    /// There is no object of that name.
    NotFound,
}

/// The header of an object: the type token and the size as they stand in it.
#[derive(Debug, Clone, Copy, PartialEq, Eq)]
pub struct ObjectHeader<'a> {
    /// The type token.
    pub object_type: &'a [u8],
    /// The size, in decimal digits.
    pub size: &'a [u8],
}

/// What an [`ObjectHeader`] holds.
pub struct ObjectHeaderView {
    pub object_type: Seq<u8>,
    pub size: Seq<u8>,
}

impl<'a> View for ObjectHeader<'a> {
    type V = ObjectHeaderView;

    open spec fn view(&self) -> ObjectHeaderView {
        ObjectHeaderView { object_type: self.object_type@, size: self.size@ }
    }
}

// ---------------------------------------------------------------------------
// Type tokens
// ---------------------------------------------------------------------------

/// The token `blob`.
pub open spec fn blob_token() -> Seq<u8> {
    seq!['b' as u8, 'l' as u8, 'o' as u8, 'b' as u8]
}

/// The token `tree`.
pub open spec fn tree_token() -> Seq<u8> {
    seq!['t' as u8, 'r' as u8, 'e' as u8, 'e' as u8]
}

/// The token `commit`.
pub open spec fn commit_token() -> Seq<u8> {
    seq!['c' as u8, 'o' as u8, 'm' as u8, 'm' as u8, 'i' as u8, 't' as u8]
}

/// The token `tag`.
pub open spec fn tag_token() -> Seq<u8> {
    seq!['t' as u8, 'a' as u8, 'g' as u8]
}

/// The token that names an object type.
pub open spec fn type_token(object_type: ObjectType) -> Seq<u8> {
    match object_type {
        ObjectType::Blob => blob_token(),
        ObjectType::Tree => tree_token(),
        ObjectType::Commit => commit_token(),
        ObjectType::Tag => tag_token(),
    }
}

/// The object type that a token names, if it names one.
pub open spec fn token_type(token: Seq<u8>) -> Option<ObjectType> {
    if token == blob_token() {
        Some(ObjectType::Blob)
    } else if token == tree_token() {
        Some(ObjectType::Tree)
    } else if token == commit_token() {
        Some(ObjectType::Commit)
    } else if token == tag_token() {
        Some(ObjectType::Tag)
    } else {
        None
    }
}

/// What `ObjectType::try_from` returns on `token`.
pub open spec fn parse_type_spec(token: Seq<u8>) -> Result<ObjectType, ObjectError> {
    match token_type(token) {
        Some(object_type) => Ok(object_type),
        None => if valid_utf8(token) {
            Err(ObjectError::UnknownType)
        } else {
            Err(ObjectError::TypeNotUtf8)
        },
    }
}

/// What `ObjectHeader::parse_size` returns on the digits `size`.
pub open spec fn parse_size_spec(size: Seq<u8>) -> Result<usize, ObjectError> {
    if !valid_utf8(size) {
        Err(ObjectError::SizeNotUtf8)
    } else {
        match parse_decimal(size) {
            Some(n) => if n <= usize::MAX {
                Ok(n as usize)
            } else {
                Err(ObjectError::SizeNotANumber)
            },
            None => Err(ObjectError::SizeNotANumber),
        }
    }
}

/// The token of a type names that type, and holds neither a space nor a NUL.
pub proof fn lemma_token_type_of_type_token(object_type: ObjectType)
    ensures
        token_type(type_token(object_type)) == Some(object_type),
        parse_type_spec(type_token(object_type)) == Ok::<ObjectType, ObjectError>(object_type),
        find_from(type_token(object_type), SPACE, 0) == type_token(object_type).len(),
        find_from(type_token(object_type), NUL, 0) == type_token(object_type).len(),
{
    let token = type_token(object_type);
    crate::text::lemma_find_from_is(token, SPACE, 0, token.len() as int);
    crate::text::lemma_find_from_is(token, NUL, 0, token.len() as int);
}

impl ObjectType {
    /// The token that names this type.
    pub fn token(&self) -> (token: Vec<u8>)
        ensures
            token@ == type_token(*self),
    {
        let mut token: Vec<u8> = Vec::new();
        match self {
            ObjectType::Blob => {
                token.push('b' as u8);
                token.push('l' as u8);
                token.push('o' as u8);
                token.push('b' as u8);
            },
            ObjectType::Tree => {
                token.push('t' as u8);
                token.push('r' as u8);
                token.push('e' as u8);
                token.push('e' as u8);
            },
            ObjectType::Commit => {
                token.push('c' as u8);
                token.push('o' as u8);
                token.push('m' as u8);
                token.push('m' as u8);
                token.push('i' as u8);
                token.push('t' as u8);
            },
            ObjectType::Tag => {
                token.push('t' as u8);
                token.push('a' as u8);
                token.push('g' as u8);
            },
        }
        token
    }

    /// The type that `value` names. A token that names none is an error:
    /// `TypeNotUtf8` where it is not even text, `UnknownType` otherwise.
    pub fn try_from(value: &[u8]) -> (res: Result<ObjectType, ObjectError>)
        ensures
            res == parse_type_spec(value@),
    {
        if lex_order(value, ObjectType::Blob.token().as_slice()) == Order::Same {
            Ok(ObjectType::Blob)
        } else if lex_order(value, ObjectType::Tree.token().as_slice()) == Order::Same {
            Ok(ObjectType::Tree)
        } else if lex_order(value, ObjectType::Commit.token().as_slice()) == Order::Same {
            Ok(ObjectType::Commit)
        } else if lex_order(value, ObjectType::Tag.token().as_slice()) == Order::Same {
            Ok(ObjectType::Tag)
        } else if is_utf8(value) {
            Err(ObjectError::UnknownType)
        } else {
            Err(ObjectError::TypeNotUtf8)
        }
    }
}

impl Default for ObjectType {
    fn default() -> (object_type: ObjectType)
        ensures
            object_type == ObjectType::Blob,
    {
        ObjectType::Blob
    }
}

// ---------------------------------------------------------------------------
// Headers
// ---------------------------------------------------------------------------

/// The header of an object of the type that `token` names, with `size` bytes
/// of content: the token, a space, the size in decimal, a NUL.
pub open spec fn header_bytes(token: Seq<u8>, size: nat) -> Seq<u8> {
    token + seq![SPACE] + decimal(size) + seq![NUL]
}

/// An object as it is hashed and stored: the header, then the content.
pub open spec fn object_frame(object_type: ObjectType, content: Seq<u8>) -> Seq<u8> {
    header_bytes(type_token(object_type), content.len()) + content
}

/// The parts of a header: the type token is what stands before the first
/// space, the size what stands after it, less the last byte (the NUL). A
/// header without a space has no parts.
pub open spec fn parse_header_spec(header: Seq<u8>) -> Result<ObjectHeaderView, ObjectError> {
    let space = find_from(header, SPACE, 0);
    if space == header.len() {
        Err(ObjectError::InvalidHeader)
    } else {
        Ok(
            ObjectHeaderView {
                object_type: header.take(space),
                size: if header.len() - 1 > space + 1 {
                    header.subrange(space + 1, header.len() - 1)
                } else {
                    Seq::empty()
                },
            },
        )
    }
}

/// The length of the header of `stream`, its NUL included, if it has one.
pub open spec fn header_len(stream: Seq<u8>) -> Option<int> {
    let nul = find_from(stream, NUL, 0);
    if nul == stream.len() {
        None
    } else {
        Some(nul + 1)
    }
}

/// The header of the object `stream`: what stands up to the first NUL, taken
/// apart. Unless unknown types are allowed, the type token has to name a type.
pub open spec fn read_header_spec(stream: Seq<u8>, allow_unknown_type: bool) -> Result<
    ObjectHeaderView,
    ObjectError,
> {
    match header_len(stream) {
        None => Err(ObjectError::InvalidHeader),
        Some(len) => match parse_header_spec(stream.take(len)) {
            Err(e) => Err(e),
            Ok(header) => if allow_unknown_type {
                Ok(header)
            } else {
                match parse_type_spec(header.object_type) {
                    Err(e) => Err(e),
                    Ok(_) => Ok(header),
                }
            },
        },
    }
}

/// The header and the content of the object `stream`. The type has to be
/// known, and the size in the header has to be the length of the content.
pub open spec fn read_content_spec(stream: Seq<u8>) -> Result<
    (ObjectHeaderView, Seq<u8>),
    ObjectError,
> {
    match read_header_spec(stream, false) {
        Err(e) => Err(e),
        Ok(header) => match parse_size_spec(header.size) {
            Err(e) => Err(e),
            Ok(size) => if size != stream.len() - header_len(stream)->0 {
                Err(ObjectError::SizeMismatch)
            } else {
                Ok((header, stream.skip(header_len(stream)->0)))
            },
        },
    }
}

/// Writes the header of an object: `<type> <size>\0`.
pub fn format_header(object_type: ObjectType, size: usize) -> (header: Vec<u8>)
    ensures
        header@ == header_bytes(type_token(object_type), size as nat),
{
    let mut header: Vec<u8> = object_type.token();
    header.push(SPACE);
    let digits: Vec<u8> = format_decimal(size);
    header.extend_from_slice(digits.as_slice());
    header.push(NUL);
    header
}

/// Takes a header apart into its type token and its size.
pub fn parse_header<'a>(header: &'a [u8]) -> (res: Result<ObjectHeader<'a>, ObjectError>)
    ensures
        match res {
            Ok(parts) => parse_header_spec(header@) == Ok::<ObjectHeaderView, ObjectError>(parts@),
            Err(e) => parse_header_spec(header@) == Err::<ObjectHeaderView, ObjectError>(e),
        },
{
    let n: usize = header.len();
    let space: usize = find_byte(header, SPACE, 0);
    if space == n {
        return Err(ObjectError::InvalidHeader);
    }
    let object_type: &[u8] = slice_subrange(header, 0, space);
    let size: &[u8] = if n - 1 > space + 1 {
        slice_subrange(header, space + 1, n - 1)
    } else {
        slice_subrange(header, n, n)
    };
    assert(n - 1 <= space + 1 ==> size@ =~= Seq::<u8>::empty());
    Ok(ObjectHeader { object_type, size })
}

impl<'a> ObjectHeader<'a> {
    /// The size that the header states.
    pub fn parse_size(&self) -> (res: Result<usize, ObjectError>)
        ensures
            res == parse_size_spec(self.size@),
    {
        if !is_utf8(self.size) {
            return Err(ObjectError::SizeNotUtf8);
        }
        match parse_usize(self.size) {
            Some(size) => Ok(size),
            None => Err(ObjectError::SizeNotANumber),
        }
    }

    /// The type that the header names.
    pub fn parse_type(&self) -> (res: Result<ObjectType, ObjectError>)
        ensures
            res == parse_type_spec(self.object_type@),
    {
        ObjectType::try_from(self.object_type)
    }
}

/// Reads the header of a decompressed object.
pub fn read_header<'a>(stream: &'a [u8], allow_unknown_type: bool) -> (res: Result<
    ObjectHeader<'a>,
    ObjectError,
>)
    ensures
        match res {
            Ok(header) => read_header_spec(stream@, allow_unknown_type) == Ok::<
                ObjectHeaderView,
                ObjectError,
            >(header@),
            Err(e) => read_header_spec(stream@, allow_unknown_type) == Err::<
                ObjectHeaderView,
                ObjectError,
            >(e),
        },
{
    let nul: usize = find_byte(stream, NUL, 0);
    if nul == stream.len() {
        return Err(ObjectError::InvalidHeader);
    }
    let line: &[u8] = slice_subrange(stream, 0, nul + 1);
    let header: ObjectHeader<'a> = parse_header(line)?;
    if !allow_unknown_type {
        header.parse_type()?;
    }
    Ok(header)
}

/// Reads the header and the content of a decompressed object, and holds the
/// size in the header against the length of the content.
pub fn read_content<'a>(stream: &'a [u8]) -> (res: Result<
    (ObjectHeader<'a>, &'a [u8]),
    ObjectError,
>)
    ensures
        match res {
            Ok((header, content)) => read_content_spec(stream@) == Ok::<
                (ObjectHeaderView, Seq<u8>),
                ObjectError,
            >((header@, content@)),
            Err(e) => read_content_spec(stream@) == Err::<
                (ObjectHeaderView, Seq<u8>),
                ObjectError,
            >(e),
        },
{
    let header: ObjectHeader<'a> = read_header(stream, false)?;
    let nul: usize = find_byte(stream, NUL, 0);
    let end: usize = stream.len();
    let start: usize = nul + 1;
    let content: &[u8] = slice_subrange(stream, start, end);
    let size: usize = header.parse_size()?;
    if size != content.len() {
        return Err(ObjectError::SizeMismatch);
    }
    Ok((header, content))
}

/// Reads the type token of a decompressed object.
pub fn read_object_type(stream: &[u8], allow_unknown_type: bool) -> (res: Result<
    Vec<u8>,
    ObjectError,
>)
    ensures
        match res {
            Ok(token) => read_header_spec(stream@, allow_unknown_type) matches Ok(header)
                && token@ == header.object_type,
            Err(e) => read_header_spec(stream@, allow_unknown_type) == Err::<
                ObjectHeaderView,
                ObjectError,
            >(e),
        },
{
    let header = read_header(stream, allow_unknown_type)?;
    Ok(vstd::slice::slice_to_vec(header.object_type))
}

/// Reads the size of a decompressed object, as the digits in its header.
pub fn read_object_size(stream: &[u8], allow_unknown_type: bool) -> (res: Result<
    Vec<u8>,
    ObjectError,
>)
    ensures
        match res {
            Ok(size) => read_header_spec(stream@, allow_unknown_type) matches Ok(header) && size@
                == header.size,
            Err(e) => read_header_spec(stream@, allow_unknown_type) == Err::<
                ObjectHeaderView,
                ObjectError,
            >(e),
        },
{
    let header = read_header(stream, allow_unknown_type)?;
    Ok(vstd::slice::slice_to_vec(header.size))
}

// ---------------------------------------------------------------------------
// What reading gives on what was written
// ---------------------------------------------------------------------------

/// Whether a token can stand in a header: it holds neither a space nor a NUL.
pub open spec fn is_plain_token(token: Seq<u8>) -> bool {
    forall|i: int| 0 <= i < token.len() ==> #[trigger] token[i] != SPACE && token[i] != NUL
}

/// A header written for a token and a size, followed by any content, is read
/// back as that token and the digits of that size.
pub proof fn lemma_read_header_of_frame(token: Seq<u8>, size: nat, content: Seq<u8>)
    requires
        is_plain_token(token),
    ensures
        header_len(header_bytes(token, size) + content) == Some(
            header_bytes(token, size).len() as int,
        ),
        parse_header_spec(header_bytes(token, size)) == Ok::<ObjectHeaderView, ObjectError>(
            ObjectHeaderView { object_type: token, size: decimal(size) },
        ),
        (header_bytes(token, size) + content).take(header_bytes(token, size).len() as int)
            == header_bytes(token, size),
        (header_bytes(token, size) + content).skip(header_bytes(token, size).len() as int)
            == content,
        size <= usize::MAX ==> parse_size_spec(decimal(size)) == Ok::<usize, ObjectError>(
            size as usize,
        ),
{
    let digits = decimal(size);
    let header = header_bytes(token, size);
    let stream = header + content;
    crate::text::lemma_decimal_value_of_decimal(size);
    let space = token.len() as int;
    let nul = header.len() - 1;
    crate::text::lemma_find_from_is(header, SPACE, 0, space);
    crate::text::lemma_find_from_is(stream, NUL, 0, nul);
    assert(header.take(space) =~= token);
    assert(header.subrange(space + 1, header.len() - 1) =~= digits);
    crate::text::lemma_ascii_is_utf8(digits);
}

/// Reading an object that was framed from a type and a content gives back
/// that type, the length of the content, and the content.
pub proof fn lemma_frame_round_trip(object_type: ObjectType, content: Seq<u8>)
    requires
        content.len() <= usize::MAX,
    ensures
        read_content_spec(object_frame(object_type, content)) == Ok::<
            (ObjectHeaderView, Seq<u8>),
            ObjectError,
        >(
            (
                ObjectHeaderView {
                    object_type: type_token(object_type),
                    size: decimal(content.len()),
                },
                content,
            ),
        ),
        parse_type_spec(type_token(object_type)) == Ok::<ObjectType, ObjectError>(object_type),
        parse_size_spec(decimal(content.len())) == Ok::<usize, ObjectError>(
            content.len() as usize,
        ),
{
    let token = type_token(object_type);
    lemma_token_type_of_type_token(object_type);
    assert(is_plain_token(token)) by {
        assert forall|i: int| 0 <= i < token.len() implies #[trigger] token[i] != SPACE && token[i]
            != NUL by {
            crate::text::lemma_find_from(token, SPACE, 0);
            crate::text::lemma_find_from(token, NUL, 0);
        }
    }
    lemma_read_header_of_frame(token, content.len(), content);
}

/// An object whose header states another size than its content has is
/// refused with `SizeMismatch`, whatever its type and its content are.
pub proof fn lemma_size_mismatch_detected(object_type: ObjectType, declared: nat, content: Seq<u8>)
    requires
        declared <= usize::MAX,
        declared != content.len(),
    ensures
        read_content_spec(header_bytes(type_token(object_type), declared) + content) == Err::<
            (ObjectHeaderView, Seq<u8>),
            ObjectError,
        >(ObjectError::SizeMismatch),
{
    let token = type_token(object_type);
    lemma_token_type_of_type_token(object_type);
    assert(is_plain_token(token)) by {
        assert forall|i: int| 0 <= i < token.len() implies #[trigger] token[i] != SPACE && token[i]
            != NUL by {
            crate::text::lemma_find_from(token, SPACE, 0);
            crate::text::lemma_find_from(token, NUL, 0);
        }
    }
    lemma_read_header_of_frame(token, declared, content);
}

/// A type token that names no type is let through only where unknown types
/// are allowed: then the header is read with the token as it stands, and
/// otherwise neither the header nor the content is read.
pub proof fn lemma_unknown_type_gating(stream: Seq<u8>)
    requires
        read_header_spec(stream, true) matches Ok(header) && token_type(header.object_type)
            is None,
    ensures
        read_header_spec(stream, true) matches Ok(header) && header.object_type == stream.take(
            find_from(stream, SPACE, 0),
        ),
        read_header_spec(stream, false) matches Err(e) && (e == ObjectError::UnknownType || e
            == ObjectError::TypeNotUtf8),
        read_content_spec(stream) == Err::<(ObjectHeaderView, Seq<u8>), ObjectError>(
            read_header_spec(stream, false)->Err_0,
        ),
{
    let len = header_len(stream)->0;
    crate::text::lemma_find_from(stream, NUL, 0);
    let line = stream.take(len);
    let space = find_from(line, SPACE, 0);
    crate::text::lemma_find_from(line, SPACE, 0);
    assert forall|j: int| 0 <= j < space implies stream[j] != SPACE by {
        assert(line[j] == stream[j]);
    }
    crate::text::lemma_find_from_is(stream, SPACE, 0, space);
}

} // verus!
