//! References: names under `refs/` that point to objects, the symbolic
//! `HEAD`, and their listing.

use crate::text::{
    ascii_bytes, bytes_of_ascii, has_prefix, is_utf8, join_lines, joined, lemma_lex_irreflexive,
    lemma_lex_total, lemma_lex_transitive, lex_lt, lex_order, line_views, starts_with, Order,
    NEWLINE, SPACE,
};
use vstd::prelude::*;
use vstd::slice::{slice_subrange, slice_to_vec};
use vstd::string::StringExecFns;
use vstd::utf8::valid_utf8;

verus! {

/// The length of a hash as it stands in a reference file: forty digits.
pub const REF_HASH_LEN: usize = 40;

/// The shortest that a hash is shown.
pub const MIN_HASH_LEN: usize = 4;

/// The longest that a hash is shown.
pub const MAX_HASH_LEN: usize = 40;

/// The length of `ref: `, which the file `HEAD` starts with.
pub const HEAD_PREFIX_LEN: usize = 5;

/// Why references cannot be collected.
#[derive(Debug, Clone, Copy, PartialEq, Eq, Structural)]
pub enum RefError {
    /// A reference file holds less than forty bytes.
    ShortRead,
    /// What `HEAD` points to is not valid UTF-8.
    HeadNotUtf8,
    /// What `HEAD` points to was not collected, and there is no such file.
    HeadTargetMissing,
}

/// A reference: a path below the repository, and the hash found there.
#[derive(Debug, Clone, PartialEq, Eq)]
pub struct RefEntry {
    /// The path, relative to the repository, with `/` between its parts.
    pub path: Vec<u8>,
    /// The hash, in hexadecimal as it stands in the file.
    pub hash: [u8; 40],
}

/// What a [`RefEntry`] holds.
pub struct RefEntryView {
    pub path: Seq<u8>,
    pub hash: Seq<u8>,
}

impl View for RefEntry {
    type V = RefEntryView;

    open spec fn view(&self) -> RefEntryView {
        RefEntryView { path: self.path@, hash: self.hash@ }
    }
}

/// A file found below `refs/`: its path relative to the repository, and
/// what it holds.
#[derive(Debug, Clone, PartialEq, Eq)]
pub struct RefFile {
    pub path: Vec<u8>,
    pub content: Vec<u8>,
}

/// What a [`RefFile`] holds.
pub struct RefFileView {
    pub path: Seq<u8>,
    pub content: Seq<u8>,
}

impl View for RefFile {
    type V = RefFileView;

    open spec fn view(&self) -> RefFileView {
        RefFileView { path: self.path@, content: self.content@ }
    }
}

/// The views of a list of files, in order.
pub open spec fn ref_file_views(files: Seq<RefFile>) -> Seq<RefFileView> {
    Seq::new(files.len(), |i: int| files[i]@)
}

// ---------------------------------------------------------------------------
// The sorted map
// ---------------------------------------------------------------------------

/// Whether the entries stand in the order of their paths, each path once.
pub open spec fn sorted_by_path(entries: Seq<RefEntryView>) -> bool {
    forall|i: int, j: int|
        0 <= i < j < entries.len() ==> lex_lt(
            (#[trigger] entries[i]).path,
            (#[trigger] entries[j]).path,
        )
}

/// The first position at or after `from` whose path does not come before
/// `path`; the number of entries where every path comes before it.
pub open spec fn ref_position(entries: Seq<RefEntryView>, path: Seq<u8>, from: int) -> int
    decreases entries.len() - from,
{
    if from >= entries.len() {
        entries.len() as int
    } else if !lex_lt(entries[from].path, path) {
        from
    } else {
        ref_position(entries, path, from + 1)
    }
}

/// The hash that sorted entries hold for `path`, if they hold one.
pub open spec fn ref_lookup(entries: Seq<RefEntryView>, path: Seq<u8>) -> Option<Seq<u8>> {
    let at = ref_position(entries, path, 0);
    if at < entries.len() && entries[at].path == path {
        Some(entries[at].hash)
    } else {
        None
    }
}

/// Sorted entries with `entry` put in: in the place of the entry with the
/// same path where there is one, and else where its path belongs.
pub open spec fn ref_inserted(entries: Seq<RefEntryView>, entry: RefEntryView) -> Seq<
    RefEntryView,
> {
    let at = ref_position(entries, entry.path, 0);
    if at < entries.len() && entries[at].path == entry.path {
        entries.update(at, entry)
    } else {
        entries.insert(at, entry)
    }
}

/// `ref_position` gives a position before which every path comes before
/// `path`, and at which the path does not.
pub proof fn lemma_ref_position(entries: Seq<RefEntryView>, path: Seq<u8>, from: int)
    requires
        0 <= from <= entries.len(),
    ensures
        from <= ref_position(entries, path, from) <= entries.len(),
        forall|j: int|
            from <= j < ref_position(entries, path, from) ==> lex_lt(
                (#[trigger] entries[j]).path,
                path,
            ),
        ref_position(entries, path, from) < entries.len() ==> !lex_lt(
            entries[ref_position(entries, path, from)].path,
            path,
        ),
    decreases entries.len() - from,
{
    if from < entries.len() && lex_lt(entries[from].path, path) {
        lemma_ref_position(entries, path, from + 1);
    }
}

/// A position before which every path comes before `path`, and at which the
/// path does not, is the one that `ref_position` gives.
pub proof fn lemma_ref_position_is(entries: Seq<RefEntryView>, path: Seq<u8>, from: int, at: int)
    requires
        0 <= from <= at <= entries.len(),
        forall|j: int| from <= j < at ==> lex_lt((#[trigger] entries[j]).path, path),
        at < entries.len() ==> !lex_lt(entries[at].path, path),
    ensures
        ref_position(entries, path, from) == at,
    decreases at - from,
{
    if from < at {
        lemma_ref_position_is(entries, path, from + 1, at);
    }
}

/// Putting an entry into sorted entries leaves them sorted, with the entry's
/// hash at its path and every other path as it was.
pub proof fn lemma_ref_inserted(entries: Seq<RefEntryView>, entry: RefEntryView)
    requires
        sorted_by_path(entries),
    ensures
        sorted_by_path(ref_inserted(entries, entry)),
        ref_lookup(ref_inserted(entries, entry), entry.path) == Some(entry.hash),
        forall|path: Seq<u8>|
            path != entry.path ==> #[trigger] ref_lookup(ref_inserted(entries, entry), path)
                == ref_lookup(entries, path),
{
    let at = ref_position(entries, entry.path, 0);
    let after = ref_inserted(entries, entry);
    lemma_ref_position(entries, entry.path, 0);
    let replaced = at < entries.len() && entries[at].path == entry.path;
    // From `at` on, the old paths do not come before the new one.
    assert forall|j: int| at <= j < entries.len() implies (entries[j].path == entry.path && j
        == at) || lex_lt(entry.path, #[trigger] entries[j].path) by {
        lemma_lex_total(entries[at].path, entry.path);
        if j > at {
            if entries[at].path != entry.path {
                lemma_lex_transitive(entry.path, entries[at].path, entries[j].path);
            }
        }
    }
    assert(sorted_by_path(after));
    lemma_lex_irreflexive(entry.path);
    lemma_ref_position_is(after, entry.path, 0, at);
    assert forall|path: Seq<u8>| path != entry.path implies #[trigger] ref_lookup(after, path)
        == ref_lookup(entries, path) by {
        let old_at = ref_position(entries, path, 0);
        lemma_ref_position(entries, path, 0);
        lemma_lex_total(path, entry.path);
        // Where `path` belongs among the new entries.
        let new_at = if replaced || old_at < at || (old_at == at && lex_lt(path, entry.path)) {
            old_at
        } else {
            old_at + 1
        };
        assert forall|j: int| 0 <= j < new_at implies lex_lt((#[trigger] after[j]).path, path) by {
            if !replaced && j == at && old_at > at {
                lemma_lex_transitive(entry.path, entries[at].path, path);
            }
        }
        lemma_lex_irreflexive(path);
        if !replaced && new_at == at && at < entries.len() {
            lemma_lex_transitive(path, entry.path, entries[at].path);
        }
        lemma_ref_position_is(after, path, 0, new_at);
    }
}

/// References by path, kept in the order of their paths.
#[derive(Debug)]
pub struct RefMap {
    entries: Vec<RefEntry>,
}

/// The views of a list of entries, in order.
pub open spec fn ref_entry_views(entries: Seq<RefEntry>) -> Seq<RefEntryView> {
    Seq::new(entries.len(), |i: int| entries[i]@)
}

impl View for RefMap {
    type V = Seq<RefEntryView>;

    closed spec fn view(&self) -> Seq<RefEntryView> {
        ref_entry_views(self.entries@)
    }
}

impl RefMap {
    #[verifier::type_invariant]
    spec fn sorted(&self) -> bool {
        sorted_by_path(ref_entry_views(self.entries@))
    }

    /// A map without references.
    pub fn new() -> (refs: RefMap)
        ensures
            refs@ == Seq::<RefEntryView>::empty(),
    {
        RefMap { entries: Vec::new() }
    }

    /// The number of references. They stand in the order of their paths,
    /// whatever was done to the map.
    pub fn len(&self) -> (n: usize)
        ensures
            n == self@.len(),
            sorted_by_path(self@),
    {
        proof {
            use_type_invariant(self);
        }
        self.entries.len()
    }

    /// The reference at a place in the order of the paths, if there are
    /// that many.
    pub fn entry(&self, i: usize) -> (entry: Option<&RefEntry>)
        ensures
            match entry {
                Some(found) => i < self@.len() && found@ == self@[i as int],
                None => i >= self@.len(),
            },
    {
        if i < self.entries.len() {
            Some(&self.entries[i])
        } else {
            None
        }
    }

    /// Where `path` stands or belongs in the order of the paths.
    fn position(&self, path: &[u8]) -> (at: usize)
        ensures
            at == ref_position(self@, path@, 0),
            at <= self@.len(),
            at < self@.len() ==> (self@[at as int].path == path@ || lex_lt(
                path@,
                self@[at as int].path,
            )),
    {
        let n: usize = self.entries.len();
        let mut i: usize = 0;
        while i < n && lex_order(self.entries[i].path.as_slice(), path) == Order::Before
            invariant
                i <= n,
                n == self.entries@.len(),
                forall|j: int| 0 <= j < i ==> lex_lt((#[trigger] self@[j]).path, path@),
            decreases n - i,
        {
            i = i + 1;
        }
        proof {
            if i < n {
                lemma_lex_total(self@[i as int].path, path@);
            }
            lemma_ref_position_is(self@, path@, 0, i as int);
        }
        i
    }

    /// The hash that the map holds for `path`.
    pub fn get(&self, path: &[u8]) -> (hash: Option<[u8; 40]>)
        ensures
            match hash {
                Some(found) => ref_lookup(self@, path@) == Some(found@),
                None => ref_lookup(self@, path@) is None,
            },
    {
        let at: usize = self.position(path);
        if at < self.entries.len() && lex_order(self.entries[at].path.as_slice(), path)
            == Order::Same {
            Some(self.entries[at].hash)
        } else {
            None
        }
    }

    /// Puts a reference into the map, in the place of the one with the same
    /// path if there is one.
    pub fn insert(&mut self, path: Vec<u8>, hash: [u8; 40])
        ensures
            final(self)@ == ref_inserted(old(self)@, RefEntryView { path: path@, hash: hash@ }),
    {
        proof {
            use_type_invariant(&*self);
            lemma_ref_inserted(self@, RefEntryView { path: path@, hash: hash@ });
        }
        let at: usize = self.position(path.as_slice());
        let ghost before = self@;
        let ghost entry = RefEntryView { path: path@, hash: hash@ };
        let replace: bool = at < self.entries.len() && lex_order(
            self.entries[at].path.as_slice(),
            path.as_slice(),
        ) == Order::Same;
        let mut entries: Vec<RefEntry> = Vec::new();
        core::mem::swap(&mut self.entries, &mut entries);
        if replace {
            entries.set(at, RefEntry { path, hash });
            assert(ref_entry_views(entries@) =~= before.update(at as int, entry));
        } else {
            entries.insert(at, RefEntry { path, hash });
            assert(ref_entry_views(entries@) =~= before.insert(at as int, entry));
        }
        self.entries = entries;
    }
}

// ---------------------------------------------------------------------------
// Collecting
// ---------------------------------------------------------------------------

/// The references with the file at `path` added: its first forty bytes are
/// the hash. A file with less is refused.
pub open spec fn ref_added(entries: Seq<RefEntryView>, path: Seq<u8>, content: Seq<u8>) -> Result<
    Seq<RefEntryView>,
    RefError,
> {
    if content.len() < REF_HASH_LEN {
        Err(RefError::ShortRead)
    } else {
        Ok(ref_inserted(entries, RefEntryView { path, hash: content.take(REF_HASH_LEN as int) }))
    }
}

/// Adds the reference that the file at `path` holds.
pub fn add_ref(refs: &mut RefMap, path: &[u8], content: &[u8]) -> (res: Result<(), RefError>)
    ensures
        match res {
            Ok(()) => ref_added(old(refs)@, path@, content@) == Ok::<
                Seq<RefEntryView>,
                RefError,
            >(final(refs)@),
            Err(e) => ref_added(old(refs)@, path@, content@) == Err::<
                Seq<RefEntryView>,
                RefError,
            >(e) && final(refs)@ == old(refs)@,
        },
{
    if content.len() < REF_HASH_LEN {
        return Err(RefError::ShortRead);
    }
    let mut hash: [u8; 40] = [0u8;40];
    let mut i: usize = 0;
    while i < REF_HASH_LEN
        invariant
            i <= REF_HASH_LEN,
            REF_HASH_LEN <= content@.len(),
            forall|j: int| 0 <= j < i ==> hash@[j] == content@[j],
        decreases REF_HASH_LEN - i,
    {
        hash[i] = content[i];
        i = i + 1;
    }
    assert(hash@ =~= content@.take(REF_HASH_LEN as int));
    refs.insert(slice_to_vec(path), hash);
    Ok(())
}

/// Adds the reference that the file at `path` holds, if there is such a
/// file: `content` is what it holds, or `None` where it does not exist.
pub fn add_ref_if_exists(refs: &mut RefMap, path: &[u8], content: Option<&[u8]>) -> (res: Result<
    (),
    RefError,
>)
    ensures
        match content {
            None => res is Ok && final(refs)@ == old(refs)@,
            Some(found) => match res {
                Ok(()) => ref_added(old(refs)@, path@, found@) == Ok::<
                    Seq<RefEntryView>,
                    RefError,
                >(final(refs)@),
                Err(e) => ref_added(old(refs)@, path@, found@) == Err::<
                    Seq<RefEntryView>,
                    RefError,
                >(e) && final(refs)@ == old(refs)@,
            },
        },
{
    match content {
        Some(found) => add_ref(refs, path, found),
        None => Ok(()),
    }
}

/// Which references are asked for.
#[derive(Debug, Clone, Copy, PartialEq, Eq, Structural)]
pub struct RefSelection {
    /// What lies below `refs/heads`.
    pub heads: bool,
    /// What lies below `refs/tags`.
    pub tags: bool,
    /// What lies below `refs/remotes`.
    pub remotes: bool,
    /// The file `refs/stash`.
    pub stash: bool,
}

/// What is asked for with the two filters: heads, tags, or both; and with
/// neither filter everything, the remotes and the stash too.
pub open spec fn selection_spec(heads: bool, tags: bool) -> RefSelection {
    if !heads && !tags {
        RefSelection { heads: true, tags: true, remotes: true, stash: true }
    } else {
        RefSelection { heads, tags, remotes: false, stash: false }
    }
}

/// Whether the file at `path` is one that is asked for.
pub open spec fn is_selected(selection: RefSelection, path: Seq<u8>) -> bool {
    ||| selection.heads && has_prefix(path, ascii_bytes("refs/heads/"@))
    ||| selection.tags && has_prefix(path, ascii_bytes("refs/tags/"@))
    ||| selection.remotes && has_prefix(path, ascii_bytes("refs/remotes/"@))
    ||| selection.stash && path == ascii_bytes("refs/stash"@)
}

impl RefSelection {
    /// What is asked for with the two filters.
    pub fn new(heads: bool, tags: bool) -> (selection: RefSelection)
        ensures
            selection == selection_spec(heads, tags),
    {
        if !heads && !tags {
            RefSelection { heads: true, tags: true, remotes: true, stash: true }
        } else {
            RefSelection { heads, tags, remotes: false, stash: false }
        }
    }

    /// Whether the file at `path` is one that is asked for.
    pub fn includes(&self, path: &[u8]) -> (res: bool)
        ensures
            res == is_selected(*self, path@),
    {
        proof {
            reveal_strlit("refs/heads/");
            reveal_strlit("refs/tags/");
            reveal_strlit("refs/remotes/");
            reveal_strlit("refs/stash");
        }
        (self.heads && starts_with(path, bytes_of_ascii("refs/heads/"))) || (self.tags
            && starts_with(path, bytes_of_ascii("refs/tags/"))) || (self.remotes && starts_with(
            path,
            bytes_of_ascii("refs/remotes/"),
        )) || (self.stash && lex_order(path, bytes_of_ascii("refs/stash")) == Order::Same)
    }
}

/// The references that the first `n` of `files` give, those that are asked
/// for, each added in its turn.
pub open spec fn collected(files: Seq<RefFileView>, selection: RefSelection, n: int) -> Result<
    Seq<RefEntryView>,
    RefError,
>
    decreases n,
{
    if n <= 0 {
        Ok(Seq::empty())
    } else {
        match collected(files, selection, n - 1) {
            Err(e) => Err(e),
            Ok(entries) => if is_selected(selection, files[n - 1].path) {
                ref_added(entries, files[n - 1].path, files[n - 1].content)
            } else {
                Ok(entries)
            },
        }
    }
}

/// Collects the references that are asked for out of the files found below
/// `refs/`. What comes out is in the order of the paths.
pub fn collect_refs(files: &[RefFile], heads: bool, tags: bool) -> (res: Result<RefMap, RefError>)
    ensures
        match res {
            Ok(refs) => collected(
                ref_file_views(files@),
                selection_spec(heads, tags),
                files@.len() as int,
            ) == Ok::<Seq<RefEntryView>, RefError>(refs@) && sorted_by_path(refs@),
            Err(e) => collected(
                ref_file_views(files@),
                selection_spec(heads, tags),
                files@.len() as int,
            ) == Err::<Seq<RefEntryView>, RefError>(e),
        },
{
    let selection: RefSelection = RefSelection::new(heads, tags);
    let n: usize = files.len();
    let mut refs: RefMap = RefMap::new();
    let mut i: usize = 0;
    while i < n
        invariant
            i <= n,
            n == files@.len(),
            selection == selection_spec(heads, tags),
            collected(ref_file_views(files@), selection, i as int) == Ok::<
                Seq<RefEntryView>,
                RefError,
            >(refs@),
        decreases n - i,
    {
        if selection.includes(files[i].path.as_slice()) {
            match add_ref(&mut refs, files[i].path.as_slice(), files[i].content.as_slice()) {
                Ok(()) => {},
                Err(e) => {
                    proof {
                        lemma_collected_fails(
                            ref_file_views(files@),
                            selection,
                            i + 1,
                            n as int,
                        );
                    }
                    return Err(e);
                },
            }
        }
        i = i + 1;
    }
    let _ = refs.len();
    Ok(refs)
}

/// Once collecting has failed it stays failed, with the same error.
proof fn lemma_collected_fails(
    files: Seq<RefFileView>,
    selection: RefSelection,
    failed: int,
    n: int,
)
    requires
        0 <= failed <= n,
        collected(files, selection, failed) is Err,
    ensures
        collected(files, selection, n) == collected(files, selection, failed),
    decreases n - failed,
{
    if failed < n {
        lemma_collected_fails(files, selection, failed, n - 1);
    }
}

// ---------------------------------------------------------------------------
// HEAD
// ---------------------------------------------------------------------------

/// The path `HEAD`.
pub open spec fn head_path() -> Seq<u8> {
    ascii_bytes("HEAD"@)
}

/// `HEAD` comes before every path below `refs/` in the order of the paths.
pub proof fn lemma_head_sorts_first(path: Seq<u8>)
    requires
        has_prefix(path, ascii_bytes("refs/"@)),
    ensures
        lex_lt(head_path(), path),
{
    reveal_strlit("HEAD");
    reveal_strlit("refs/");
    assert(path[0] == path.take(5)[0]);
}

/// The path that the file `HEAD` points to: what follows its first five
/// bytes, without the line feed at the end if there is one. It has to be
/// valid UTF-8.
pub open spec fn head_target_spec(head: Seq<u8>) -> Result<Seq<u8>, RefError> {
    let rest = if head.len() > HEAD_PREFIX_LEN {
        head.skip(HEAD_PREFIX_LEN as int)
    } else {
        Seq::empty()
    };
    let target = if rest.len() > 0 && rest.last() == NEWLINE {
        rest.drop_last()
    } else {
        rest
    };
    if valid_utf8(target) {
        Ok(target)
    } else {
        Err(RefError::HeadNotUtf8)
    }
}

/// Reads out of the content of the file `HEAD` the path that it points to.
pub fn read_head_target(head: &[u8]) -> (res: Result<Vec<u8>, RefError>)
    ensures
        match res {
            Ok(target) => head_target_spec(head@) == Ok::<Seq<u8>, RefError>(target@),
            Err(e) => head_target_spec(head@) == Err::<Seq<u8>, RefError>(e),
        },
{
    let n: usize = head.len();
    let start: usize = if n > HEAD_PREFIX_LEN {
        HEAD_PREFIX_LEN
    } else {
        n
    };
    let ghost rest = head@.skip(start as int);
    assert(n <= HEAD_PREFIX_LEN ==> rest =~= Seq::<u8>::empty());
    let end: usize = if n > start && head[n - 1] == NEWLINE {
        n - 1
    } else {
        n
    };
    let target: &[u8] = slice_subrange(head, start, end);
    assert(n > start && head@[n - 1] == NEWLINE ==> target@ =~= rest.drop_last());
    if is_utf8(target) {
        Ok(slice_to_vec(target))
    } else {
        Err(RefError::HeadNotUtf8)
    }
}

/// The references with `HEAD` added. Where what `HEAD` points to is among
/// them, `HEAD` gets its hash, and the file is not looked at. Otherwise the
/// hash is read from the file that `HEAD` points to; `content` is what that
/// file holds, or `None` where it does not exist.
pub open spec fn head_added(
    entries: Seq<RefEntryView>,
    target: Seq<u8>,
    content: Option<Seq<u8>>,
) -> Result<Seq<RefEntryView>, RefError> {
    match ref_lookup(entries, target) {
        Some(hash) => Ok(ref_inserted(entries, RefEntryView { path: head_path(), hash })),
        None => match content {
            None => Err(RefError::HeadTargetMissing),
            Some(found) => ref_added(entries, head_path(), found),
        },
    }
}

/// Adds `HEAD` to the references, given the path that it points to.
pub fn read_head(refs: &mut RefMap, target: &[u8], content: Option<&[u8]>) -> (res: Result<
    (),
    RefError,
>)
    ensures
        match res {
            Ok(()) => head_added(
                old(refs)@,
                target@,
                match content {
                    Some(found) => Some(found@),
                    None => None,
                },
            ) == Ok::<Seq<RefEntryView>, RefError>(final(refs)@),
            Err(e) => head_added(
                old(refs)@,
                target@,
                match content {
                    Some(found) => Some(found@),
                    None => None,
                },
            ) == Err::<Seq<RefEntryView>, RefError>(e) && final(refs)@ == old(refs)@,
        },
{
    proof {
        reveal_strlit("HEAD");
    }
    let head: &[u8] = bytes_of_ascii("HEAD");
    match refs.get(target) {
        Some(hash) => {
            refs.insert(slice_to_vec(head), hash);
            Ok(())
        },
        None => match content {
            Some(found) => add_ref(refs, head, found),
            None => Err(RefError::HeadTargetMissing),
        },
    }
}

/// What the file `HEAD` of a new repository holds, for the name of its first
/// branch.
pub fn get_head_ref_content(initial_branch: &str) -> (content: String)
    ensures
        content@ == "ref: refs/heads/"@ + initial_branch@ + "\n"@,
{
    let mut content: String = String::from_str("ref: refs/heads/");
    content.append(initial_branch);
    content.append("\n");
    content
}

// ---------------------------------------------------------------------------
// Listing
// ---------------------------------------------------------------------------

/// A number of digits brought into the range in which hashes are shown.
pub open spec fn clamped(n: int) -> int {
    if n < MIN_HASH_LEN {
        MIN_HASH_LEN as int
    } else if n > MAX_HASH_LEN {
        MAX_HASH_LEN as int
    } else {
        n
    }
}

/// Brings a number of digits into the range from 4 to 40.
pub fn clamp_hash_len(n: usize) -> (len: usize)
    ensures
        len == clamped(n as int),
        MIN_HASH_LEN <= len <= MAX_HASH_LEN,
{
    if n < MIN_HASH_LEN {
        MIN_HASH_LEN
    } else if n > MAX_HASH_LEN {
        MAX_HASH_LEN
    } else {
        n
    }
}

/// The line that lists a reference. With a limit for hashes alone it is the
/// hash cut to the limit, and nothing else; without one it is the hash cut
/// to `abbrev` digits, a space and the path. Either number is first brought
/// into the range from 4 to 40.
pub open spec fn ref_line(entry: RefEntryView, abbrev: int, hash_limit: Option<int>) -> Seq<u8> {
    match hash_limit {
        Some(limit) => entry.hash.take(clamped(limit)),
        None => entry.hash.take(clamped(abbrev)) + seq![SPACE] + entry.path,
    }
}

/// The lines that list references, in their order.
pub open spec fn ref_lines(entries: Seq<RefEntryView>, abbrev: int, hash_limit: Option<int>) -> Seq<
    Seq<u8>,
> {
    Seq::new(entries.len(), |i: int| ref_line(entries[i], abbrev, hash_limit))
}

/// The limit as a number.
pub open spec fn limit_spec(hash_limit: Option<usize>) -> Option<int> {
    match hash_limit {
        Some(limit) => Some(limit as int),
        None => None,
    }
}

/// Writes the line that lists a reference.
pub fn format_ref(entry: &RefEntry, abbrev: usize, hash_limit: Option<usize>) -> (line: Vec<u8>)
    ensures
        line@ == ref_line(entry@, abbrev as int, limit_spec(hash_limit)),
{
    match hash_limit {
        Some(limit) => {
            let shown: usize = clamp_hash_len(limit);
            let line: Vec<u8> = slice_to_vec(slice_subrange(entry.hash.as_slice(), 0, shown));
            line
        },
        None => {
            let shown: usize = clamp_hash_len(abbrev);
            let mut line: Vec<u8> = slice_to_vec(slice_subrange(entry.hash.as_slice(), 0, shown));
            line.push(SPACE);
            line.extend_from_slice(entry.path.as_slice());
            line
        },
    }
}

/// Lists the references in the order of their paths, one on a line, with a
/// line feed between each two and none at the end.
pub fn format_refs(refs: &RefMap, abbrev: usize, hash_limit: Option<usize>) -> (out: Vec<u8>)
    ensures
        out@ == joined(ref_lines(refs@, abbrev as int, limit_spec(hash_limit))),
        sorted_by_path(refs@),
{
    let n: usize = refs.len();
    let mut lines: Vec<Vec<u8>> = Vec::new();
    let mut i: usize = 0;
    while i < n
        invariant
            i <= n,
            n == refs@.len(),
            lines@.len() == i,
            forall|j: int|
                0 <= j < i ==> (#[trigger] lines@[j])@ == ref_line(
                    refs@[j],
                    abbrev as int,
                    limit_spec(hash_limit),
                ),
        decreases n - i,
    {
        if let Some(entry) = refs.entry(i) {
            lines.push(format_ref(entry, abbrev, hash_limit));
        }
        i = i + 1;
    }
    assert(line_views(lines@) =~= ref_lines(refs@, abbrev as int, limit_spec(hash_limit)));
    join_lines(lines.as_slice())
}

} // verus!
