//! Tree objects: entries `<mode> <name>\0<20-byte hash>` one after the other,
//! and their listing as text.

use crate::hex::{encode_in_place, hex_encoding};
use crate::objects::ObjectError;
use crate::text::{
    find_byte, find_from, join_lines, joined, lemma_find_from, lemma_find_from_is, line_views, NUL,
    SPACE, TAB,
};
use vstd::prelude::*;
use vstd::slice::{slice_subrange, slice_to_vec};

verus! {

/// The length of the hash at the end of an entry.
pub const TREE_HASH_LEN: usize = 20;

/// One entry of a tree: a named pointer to another object.
#[derive(Debug, Clone, PartialEq, Eq)]
pub struct TreeEntry {
    /// The mode, as the text that stands in the tree.
    pub mode: Vec<u8>,
    /// The name of the file or directory.
    pub name: Vec<u8>,
    /// The hash of the object that the entry points to.
    pub hash: [u8; 20],
}

/// What a [`TreeEntry`] holds.
pub struct TreeEntryView {
    pub mode: Seq<u8>,
    pub name: Seq<u8>,
    pub hash: Seq<u8>,
}

impl View for TreeEntry {
    type V = TreeEntryView;

    open spec fn view(&self) -> TreeEntryView {
        TreeEntryView { mode: self.mode@, name: self.name@, hash: self.hash@ }
    }
}

/// The views of a list of entries, in order.
pub open spec fn tree_entry_views(entries: Seq<TreeEntry>) -> Seq<TreeEntryView> {
    Seq::new(entries.len(), |i: int| entries[i]@)
}

/// The entry that starts at `pos` in `content`, and where the next one
/// starts: the mode runs up to the first space, the name from there up to the
/// first NUL, and twenty bytes of hash follow. `None` where the content ends
/// before that.
pub open spec fn tree_entry_at(content: Seq<u8>, pos: int) -> Option<(TreeEntryView, int)> {
    let space = find_from(content, SPACE, pos);
    let nul = find_from(content, NUL, space + 1);
    if space >= content.len() || nul >= content.len() || content.len() < nul + 1
        + TREE_HASH_LEN {
        None
    } else {
        Some(
            (
                TreeEntryView {
                    mode: content.subrange(pos, space),
                    name: content.subrange(space + 1, nul),
                    hash: content.subrange(nul + 1, nul + 1 + TREE_HASH_LEN),
                },
                nul + 1 + TREE_HASH_LEN,
            ),
        )
    }
}

/// The entries of `content` from `pos` on, in the order in which they stand.
/// The end of the content is the end of the entries; content that ends
/// inside an entry is refused.
pub open spec fn tree_entries_from(content: Seq<u8>, pos: int) -> Result<
    Seq<TreeEntryView>,
    ObjectError,
>
    decreases content.len() - pos,
    when pos >= 0
{
    if pos >= content.len() {
        Ok(Seq::empty())
    } else {
        match tree_entry_at(content, pos) {
            None => Err(ObjectError::TruncatedTree),
            Some((entry, next)) => {
                proof {
                    lemma_find_from(content, SPACE, pos);
                    lemma_find_from(content, NUL, find_from(content, SPACE, pos) + 1);
                }
                match tree_entries_from(content, next) {
                    Err(e) => Err(e),
                    Ok(rest) => Ok(seq![entry] + rest),
                }
            },
        }
    }
}

/// The entries of the tree `content`.
pub open spec fn tree_entries(content: Seq<u8>) -> Result<Seq<TreeEntryView>, ObjectError> {
    tree_entries_from(content, 0)
}

/// What was read so far, followed by what the rest of the content gives.
pub open spec fn tree_entries_then(
    done: Seq<TreeEntryView>,
    rest: Result<Seq<TreeEntryView>, ObjectError>,
) -> Result<Seq<TreeEntryView>, ObjectError> {
    match rest {
        Err(e) => Err(e),
        Ok(entries) => Ok(done + entries),
    }
}

/// Reads the entry that starts at `pos`, and says where the next one starts.
pub fn decode_tree_entry(content: &[u8], pos: usize) -> (res: Option<(TreeEntry, usize)>)
    ensures
        match res {
            Some((entry, next)) => tree_entry_at(content@, pos as int) == Some(
                (entry@, next as int),
            ) && pos < next <= content@.len(),
            None => tree_entry_at(content@, pos as int) is None,
        },
{
    let n: usize = content.len();
    if pos >= n {
        return None;
    }
    let space: usize = find_byte(content, SPACE, pos);
    if space >= n {
        return None;
    }
    let nul: usize = find_byte(content, NUL, space + 1);
    if nul >= n || n - (nul + 1) < TREE_HASH_LEN {
        return None;
    }
    let mode: Vec<u8> = slice_to_vec(slice_subrange(content, pos, space));
    let name: Vec<u8> = slice_to_vec(slice_subrange(content, space + 1, nul));
    let mut hash: [u8; 20] = [0u8;20];
    let mut i: usize = 0;
    while i < TREE_HASH_LEN
        invariant
            i <= TREE_HASH_LEN,
            n == content@.len(),
            nul + 1 + TREE_HASH_LEN <= n,
            forall|j: int| 0 <= j < i ==> hash@[j] == content@[nul + 1 + j],
        decreases TREE_HASH_LEN - i,
    {
        hash[i] = content[nul + 1 + i];
        i = i + 1;
    }
    assert(hash@ =~= content@.subrange(nul + 1, nul + 1 + TREE_HASH_LEN));
    Some((TreeEntry { mode, name, hash }, nul + 1 + TREE_HASH_LEN))
}

/// Reads the entries of a tree, in the order in which they stand, and counts
/// the bytes that they take: all of the content.
pub fn decode_tree(content: &[u8]) -> (res: Result<(Vec<TreeEntry>, usize), ObjectError>)
    ensures
        match res {
            Ok((entries, consumed)) => tree_entries(content@) == Ok::<
                Seq<TreeEntryView>,
                ObjectError,
            >(tree_entry_views(entries@)) && consumed == content@.len(),
            Err(e) => tree_entries(content@) == Err::<Seq<TreeEntryView>, ObjectError>(e),
        },
{
    let n: usize = content.len();
    let mut entries: Vec<TreeEntry> = Vec::new();
    let mut pos: usize = 0;
    assert(tree_entry_views(entries@) =~= Seq::<TreeEntryView>::empty());
    while pos < n
        invariant
            n == content@.len(),
            pos <= n,
            tree_entries(content@) == tree_entries_then(
                tree_entry_views(entries@),
                tree_entries_from(content@, pos as int),
            ),
        decreases n - pos,
    {
        let ghost done = tree_entry_views(entries@);
        let (entry, next) = match decode_tree_entry(content, pos) {
            Some(found) => found,
            None => {
                return Err(ObjectError::TruncatedTree);
            },
        };
        proof {
            match tree_entries_from(content@, next as int) {
                Ok(found) => {
                    assert(done + (seq![entry@] + found) =~= done.push(entry@) + found);
                },
                Err(_) => {},
            }
        }
        entries.push(entry);
        assert(tree_entry_views(entries@) =~= done.push(entry@));
        pos = next;
    }
    Ok((entries, pos))
}

// ---------------------------------------------------------------------------
// What reading gives on what was written
// ---------------------------------------------------------------------------

/// Whether an entry can stand in a tree and be told apart from what follows:
/// its mode holds no space, its name no NUL, and its hash is twenty bytes.
pub open spec fn is_plain_entry(entry: TreeEntryView) -> bool {
    &&& forall|i: int| 0 <= i < entry.mode.len() ==> entry.mode[i] != SPACE
    &&& forall|i: int| 0 <= i < entry.name.len() ==> entry.name[i] != NUL
    &&& entry.hash.len() == TREE_HASH_LEN
}

/// An entry as it stands in a tree: the mode, a space, the name, a NUL, the
/// hash.
pub open spec fn tree_entry_encoding(entry: TreeEntryView) -> Seq<u8> {
    entry.mode + seq![SPACE] + entry.name + seq![NUL] + entry.hash
}

/// The content of a tree with the given entries: one after the other, with
/// nothing between them and nothing to count them.
pub open spec fn tree_encoding(entries: Seq<TreeEntryView>) -> Seq<u8>
    decreases entries.len(),
{
    if entries.len() == 0 {
        Seq::empty()
    } else {
        tree_entry_encoding(entries[0]) + tree_encoding(entries.drop_first())
    }
}

/// Entries that stand from `pos` to the end of `content` are read back as
/// they are, in their order.
proof fn lemma_tree_entries_from_encoding(
    content: Seq<u8>,
    pos: int,
    entries: Seq<TreeEntryView>,
)
    requires
        0 <= pos <= content.len(),
        forall|i: int| 0 <= i < entries.len() ==> is_plain_entry(#[trigger] entries[i]),
        content.subrange(pos, content.len() as int) == tree_encoding(entries),
    ensures
        tree_entries_from(content, pos) == Ok::<Seq<TreeEntryView>, ObjectError>(entries),
    decreases entries.len(),
{
    let tail = content.subrange(pos, content.len() as int);
    if entries.len() == 0 {
        assert(entries =~= Seq::<TreeEntryView>::empty());
    } else {
        let first = entries[0];
        let rest = entries.drop_first();
        let head = tree_entry_encoding(first);
        assert(tail.len() == head.len() + tree_encoding(rest).len());
        assert forall|k: int| 0 <= k < head.len() implies content[pos + k] == head[k] by {
            assert(tail[k] == content[pos + k]);
        }
        let space = pos + first.mode.len();
        let nul = space + 1 + first.name.len();
        let next = nul + 1 + TREE_HASH_LEN;
        assert(content[space] == SPACE) by {
            assert(head[space - pos] == SPACE);
        }
        assert forall|j: int| pos <= j < space implies content[j] != SPACE by {
            assert(head[j - pos] == first.mode[j - pos]);
        }
        lemma_find_from_is(content, SPACE, pos, space);
        assert(content[nul] == NUL) by {
            assert(head[nul - pos] == NUL);
        }
        assert forall|j: int| space + 1 <= j < nul implies content[j] != NUL by {
            assert(head[j - pos] == first.name[j - space - 1]);
        }
        lemma_find_from_is(content, NUL, space + 1, nul);
        assert(content.subrange(pos, space) =~= first.mode) by {
            assert forall|k: int| 0 <= k < first.mode.len() implies content[pos + k]
                == first.mode[k] by {
                assert(head[k] == first.mode[k]);
            }
        }
        assert(content.subrange(space + 1, nul) =~= first.name) by {
            assert forall|k: int| 0 <= k < first.name.len() implies content[space + 1 + k]
                == first.name[k] by {
                assert(head[space + 1 + k - pos] == first.name[k]);
            }
        }
        assert(content.subrange(nul + 1, next) =~= first.hash) by {
            assert forall|k: int| 0 <= k < TREE_HASH_LEN implies content[nul + 1 + k]
                == first.hash[k] by {
                assert(head[nul + 1 + k - pos] == first.hash[k]);
            }
        }
        assert(content.subrange(next, content.len() as int) =~= tree_encoding(rest)) by {
            assert forall|k: int| 0 <= k < tree_encoding(rest).len() implies content[next + k]
                == tree_encoding(rest)[k] by {
                assert(tail[head.len() + k] == content[next + k]);
            }
        }
        lemma_tree_entries_from_encoding(content, next, rest);
        assert(seq![first] + rest =~= entries);
    }
}

/// Entries that are written one after the other are read back as they are,
/// in the order in which they were written.
pub proof fn lemma_tree_round_trip(entries: Seq<TreeEntryView>)
    requires
        forall|i: int| 0 <= i < entries.len() ==> is_plain_entry(#[trigger] entries[i]),
    ensures
        tree_entries(tree_encoding(entries)) == Ok::<Seq<TreeEntryView>, ObjectError>(entries),
{
    let content = tree_encoding(entries);
    assert(content.subrange(0, content.len() as int) =~= content);
    lemma_tree_entries_from_encoding(content, 0, entries);
}

// ---------------------------------------------------------------------------
// Listing
// ---------------------------------------------------------------------------

/// The line that lists an entry: `<mode> <type> <hash in hex>\t<name>`.
pub open spec fn tree_line(entry: TreeEntryView, object_type: Seq<u8>) -> Seq<u8> {
    entry.mode + seq![SPACE] + object_type + seq![SPACE] + hex_encoding(entry.hash) + seq![TAB]
        + entry.name
}

/// The name, in hexadecimal, of the object that an entry points to.
pub fn tree_entry_hash_hex(entry: &TreeEntry) -> (hex: Vec<u8>)
    ensures
        hex@ == hex_encoding(entry.hash@),
{
    let mut hex: Vec<u8> = slice_to_vec(entry.hash.as_slice());
    encode_in_place(&mut hex);
    hex
}

/// Writes the line that lists `entry`, given the type token of the object
/// that it points to.
pub fn format_tree_entry(entry: &TreeEntry, object_type: &[u8]) -> (line: Vec<u8>)
    ensures
        line@ == tree_line(entry@, object_type@),
{
    let mut line: Vec<u8> = Vec::new();
    line.extend_from_slice(entry.mode.as_slice());
    line.push(SPACE);
    line.extend_from_slice(object_type);
    line.push(SPACE);
    let hex: Vec<u8> = tree_entry_hash_hex(entry);
    line.extend_from_slice(hex.as_slice());
    line.push(TAB);
    line.extend_from_slice(entry.name.as_slice());
    line
}

/// The lines that list the entries of a tree, given the type token of the
/// object that each points to.
pub open spec fn tree_lines(entries: Seq<TreeEntryView>, types: Seq<Seq<u8>>) -> Seq<Seq<u8>> {
    Seq::new(entries.len(), |i: int| tree_line(entries[i], types[i]))
}

/// Lists the entries of a tree in their order, one on a line, with a line
/// feed between each two and none at the end. `types` holds the type token of
/// the object behind each entry; where it holds more or fewer than there are
/// entries, nothing is listed.
pub fn read_tree_pretty(entries: &[TreeEntry], types: &[Vec<u8>]) -> (res: Option<Vec<u8>>)
    ensures
        match res {
            Some(text) => types@.len() == entries@.len() && text@ == joined(
                tree_lines(tree_entry_views(entries@), line_views(types@)),
            ),
            None => types@.len() != entries@.len(),
        },
{
    let n: usize = entries.len();
    if types.len() != n {
        return None;
    }
    let mut lines: Vec<Vec<u8>> = Vec::new();
    let mut i: usize = 0;
    while i < n
        invariant
            i <= n,
            n == entries@.len(),
            n == types@.len(),
            lines@.len() == i,
            forall|j: int|
                0 <= j < i ==> (#[trigger] lines@[j])@ == tree_line(entries@[j]@, types@[j]@),
        decreases n - i,
    {
        lines.push(format_tree_entry(&entries[i], types[i].as_slice()));
        i = i + 1;
    }
    assert(line_views(lines@) =~= tree_lines(tree_entry_views(entries@), line_views(types@)));
    Some(join_lines(lines.as_slice()))
}

} // verus!
