use git_plumbing::refs::{
    add_ref, add_ref_if_exists, clamp_hash_len, collect_refs, format_ref, format_refs,
    get_head_ref_content, read_head, read_head_target, RefEntry, RefError, RefFile, RefMap,
    RefSelection,
};

const HEAD_HASH: &str = "aabbccddeeff00112233445566778899aabbccdd";
const HEAD_NAME: &str = "main";
const TAG_HASH: &str = "112233445566778899aabbccddeeff0011223344";
const TAG_NAME: &str = "v1.0";
const REMOTE_HASH: &str = "33445566778899aabbccddeeff00112233445566";
const REMOTE_NAME: &str = "origin";
const STASH_HASH: &str = "5566778899aabbccddeeff001122334455667788";

struct Ref {
    dir: &'static str,
    name: &'static str,
    hash: &'static [u8],
}

/// A repository in memory: the files below `refs/`, and the file `HEAD`.
struct Repo {
    files: Vec<RefFile>,
    head: Vec<u8>,
}

/// A repository with the given references; the head `main`, the stash and
/// `HEAD` are always there.
fn create_temp_refs<const N: usize>(refs: [Ref; N]) -> Repo {
    let mut files = Vec::new();
    for Ref { dir, name, hash } in refs {
        files.push(RefFile {
            path: format!("refs/{}/{}", dir, name).into_bytes(),
            content: hash.to_vec(),
        });
    }
    files.push(RefFile {
        path: format!("refs/heads/{}", HEAD_NAME).into_bytes(),
        content: HEAD_HASH.as_bytes().to_vec(),
    });
    files.push(RefFile { path: b"refs/stash".to_vec(), content: STASH_HASH.as_bytes().to_vec() });
    Repo { files, head: get_head_ref_content(HEAD_NAME).into_bytes() }
}

struct ShowRefArgs {
    head: bool,
    heads: bool,
    tags: bool,
    hash: Option<usize>,
    abbrev: usize,
}

impl ShowRefArgs {
    /// Runs the command on a repository in memory, as the program does on
    /// one on disk.
    fn run(&self, repo: &Repo, output: &mut Vec<u8>) -> Result<(), RefError> {
        let selection = RefSelection::new(self.heads, self.tags);
        let found: Vec<RefFile> =
            repo.files.iter().filter(|f| selection.includes(&f.path)).cloned().collect();
        let mut refs = collect_refs(&found, self.heads, self.tags)?;
        if self.head {
            let target = read_head_target(&repo.head)?;
            let content = if refs.get(&target).is_none() {
                repo.files.iter().find(|f| f.path == target).map(|f| f.content.as_slice())
            } else {
                None
            };
            read_head(&mut refs, &target, content)?;
        }
        output.extend(format_refs(&refs, self.abbrev, self.hash));
        Ok(())
    }
}

fn tag_and_remote() -> [Ref; 2] {
    [
        Ref { dir: "tags", name: TAG_NAME, hash: TAG_HASH.as_bytes() },
        Ref { dir: "remotes", name: REMOTE_NAME, hash: REMOTE_HASH.as_bytes() },
    ]
}

#[test]
fn show_refs() {
    let repo = create_temp_refs(tag_and_remote());
    let args = ShowRefArgs { head: false, heads: false, tags: false, hash: None, abbrev: 40 };

    let mut output = Vec::new();
    let result = args.run(&repo, &mut output);
    let expected = format!(
        "{HEAD_HASH} refs/heads/{HEAD_NAME}\n\
         {REMOTE_HASH} refs/remotes/{REMOTE_NAME}\n\
         {STASH_HASH} refs/stash\n\
         {TAG_HASH} refs/tags/{TAG_NAME}",
    )
    .into_bytes();

    assert!(result.is_ok());
    assert_eq!(output, expected);
}

#[test]
fn show_refs_with_head() {
    let repo = create_temp_refs(tag_and_remote());
    let args = ShowRefArgs { head: true, heads: false, tags: false, hash: None, abbrev: 40 };

    let mut output = Vec::new();
    let result = args.run(&repo, &mut output);
    let expected = format!(
        "{HEAD_HASH} HEAD\n\
         {HEAD_HASH} refs/heads/{HEAD_NAME}\n\
         {REMOTE_HASH} refs/remotes/{REMOTE_NAME}\n\
         {STASH_HASH} refs/stash\n\
         {TAG_HASH} refs/tags/{TAG_NAME}",
    )
    .into_bytes();

    assert!(result.is_ok());
    assert_eq!(output, expected);
}

#[test]
fn show_head_refs() {
    let repo = create_temp_refs(tag_and_remote());
    let args = ShowRefArgs { head: false, heads: true, tags: false, hash: None, abbrev: 40 };

    let mut output = Vec::new();
    let result = args.run(&repo, &mut output);
    let expected = format!("{HEAD_HASH} refs/heads/{HEAD_NAME}").into_bytes();

    assert!(result.is_ok());
    assert_eq!(output, expected);
}

#[test]
fn show_tag_refs() {
    let repo = create_temp_refs(tag_and_remote());
    let args = ShowRefArgs { head: false, heads: false, tags: true, hash: None, abbrev: 40 };

    let mut output = Vec::new();
    let result = args.run(&repo, &mut output);
    let expected = format!("{TAG_HASH} refs/tags/{TAG_NAME}").into_bytes();

    assert!(result.is_ok());
    assert_eq!(output, expected);
}

#[test]
fn show_tag_and_head_refs() {
    let repo = create_temp_refs(tag_and_remote());
    let args = ShowRefArgs { head: false, heads: true, tags: true, hash: None, abbrev: 40 };

    let mut output = Vec::new();
    let result = args.run(&repo, &mut output);
    let expected = format!(
        "{HEAD_HASH} refs/heads/{HEAD_NAME}\n\
         {TAG_HASH} refs/tags/{TAG_NAME}",
    )
    .into_bytes();

    assert!(result.is_ok());
    assert_eq!(output, expected);
}

#[test]
fn show_tag_and_head_refs_with_head() {
    let repo = create_temp_refs(tag_and_remote());
    let args = ShowRefArgs { head: true, heads: true, tags: true, hash: None, abbrev: 40 };

    let mut output = Vec::new();
    let result = args.run(&repo, &mut output);
    let expected = format!(
        "{HEAD_HASH} HEAD\n\
         {HEAD_HASH} refs/heads/{HEAD_NAME}\n\
         {TAG_HASH} refs/tags/{TAG_NAME}",
    )
    .into_bytes();

    assert!(result.is_ok());
    assert_eq!(output, expected);
}

#[test]
fn show_tag_refs_with_head() {
    let repo = create_temp_refs(tag_and_remote());
    let args = ShowRefArgs { head: true, heads: false, tags: true, hash: None, abbrev: 40 };

    let mut output = Vec::new();
    let result = args.run(&repo, &mut output);
    let expected = format!(
        "{HEAD_HASH} HEAD\n\
         {TAG_HASH} refs/tags/{TAG_NAME}"
    )
    .into_bytes();

    assert!(result.is_ok());
    assert_eq!(output, expected);
}

#[test]
fn show_no_tag_refs() {
    let repo = create_temp_refs([]);
    let args = ShowRefArgs { head: false, heads: false, tags: true, hash: None, abbrev: 40 };

    let mut output = Vec::new();
    let result = args.run(&repo, &mut output);

    assert!(result.is_ok());
    assert!(output.is_empty());
}

#[test]
fn abbreviate_ref_hashes() {
    let repo = create_temp_refs(tag_and_remote());
    let args = ShowRefArgs { head: false, heads: false, tags: false, hash: None, abbrev: 8 };

    let mut output = Vec::new();
    let result = args.run(&repo, &mut output);
    let expected = format!(
        "{} refs/heads/{HEAD_NAME}\n\
         {} refs/remotes/{REMOTE_NAME}\n\
         {} refs/stash\n\
         {} refs/tags/{TAG_NAME}",
        &HEAD_HASH[..8],
        &REMOTE_HASH[..8],
        &STASH_HASH[..8],
        &TAG_HASH[..8],
    )
    .into_bytes();

    assert!(result.is_ok());
    assert_eq!(output, expected);
}

#[test]
fn abbreviate_ref_hashes_below_min() {
    let repo = create_temp_refs(tag_and_remote());
    let args = ShowRefArgs { head: false, heads: false, tags: false, hash: None, abbrev: 2 };

    let mut output = Vec::new();
    let result = args.run(&repo, &mut output);
    let expected = format!(
        "{} refs/heads/{HEAD_NAME}\n\
         {} refs/remotes/{REMOTE_NAME}\n\
         {} refs/stash\n\
         {} refs/tags/{TAG_NAME}",
        &HEAD_HASH[..4],
        &REMOTE_HASH[..4],
        &STASH_HASH[..4],
        &TAG_HASH[..4],
    )
    .into_bytes();

    assert!(result.is_ok());
    assert_eq!(output, expected);
}

#[test]
fn abbreviate_ref_hashes_above_max() {
    let repo = create_temp_refs(tag_and_remote());
    let args = ShowRefArgs { head: false, heads: false, tags: false, hash: None, abbrev: 50 };

    let mut output = Vec::new();
    let result = args.run(&repo, &mut output);
    let expected = format!(
        "{HEAD_HASH} refs/heads/{HEAD_NAME}\n\
         {REMOTE_HASH} refs/remotes/{REMOTE_NAME}\n\
         {STASH_HASH} refs/stash\n\
         {TAG_HASH} refs/tags/{TAG_NAME}",
    )
    .into_bytes();

    assert!(result.is_ok());
    assert_eq!(output, expected);
}

#[test]
fn show_hashes_with_limit() {
    let repo = create_temp_refs(tag_and_remote());
    let args = ShowRefArgs { head: false, heads: false, tags: false, hash: Some(8), abbrev: 40 };

    let mut output = Vec::new();
    let result = args.run(&repo, &mut output);
    let expected = format!(
        "{}\n{}\n{}\n{}",
        &HEAD_HASH[..8],
        &REMOTE_HASH[..8],
        &STASH_HASH[..8],
        &TAG_HASH[..8],
    )
    .into_bytes();

    assert!(result.is_ok());
    assert_eq!(output, expected);
}

#[test]
fn show_hashes_with_limit_below_min() {
    let repo = create_temp_refs(tag_and_remote());
    let args = ShowRefArgs { head: false, heads: false, tags: false, hash: Some(2), abbrev: 40 };

    let mut output = Vec::new();
    let result = args.run(&repo, &mut output);
    let expected = format!(
        "{}\n{}\n{}\n{}",
        &HEAD_HASH[..4],
        &REMOTE_HASH[..4],
        &STASH_HASH[..4],
        &TAG_HASH[..4],
    )
    .into_bytes();

    assert!(result.is_ok());
    assert_eq!(output, expected);
}

#[test]
fn show_hashes_with_limit_above_max() {
    let repo = create_temp_refs(tag_and_remote());
    let args = ShowRefArgs { head: false, heads: false, tags: false, hash: Some(50), abbrev: 40 };

    let mut output = Vec::new();
    let result = args.run(&repo, &mut output);
    let expected =
        format!("{}\n{}\n{}\n{}", HEAD_HASH, REMOTE_HASH, STASH_HASH, TAG_HASH).into_bytes();

    assert!(result.is_ok());
    assert_eq!(output, expected);
}

#[test]
fn allow_invalid_head_path_without_head_arg() {
    let mut repo = create_temp_refs([]);
    repo.head = get_head_ref_content("invalid").into_bytes();
    let args = ShowRefArgs { head: false, heads: false, tags: false, hash: None, abbrev: 40 };

    let mut output = Vec::new();
    let result = args.run(&repo, &mut output);
    assert!(result.is_ok());
}

#[test]
fn fail_on_invalid_head_path() {
    let mut repo = create_temp_refs([]);
    repo.head = get_head_ref_content("invalid").into_bytes();
    let args = ShowRefArgs { head: true, heads: false, tags: false, hash: None, abbrev: 40 };

    let result = args.run(&repo, &mut Vec::new());
    assert!(result.is_err());
    assert_eq!(result, Err(RefError::HeadTargetMissing));
}

#[test]
fn head_comes_first_of_five() {
    let repo = create_temp_refs(tag_and_remote());
    let mut refs = collect_refs(&repo.files, false, false).unwrap();
    let target = read_head_target(&repo.head).unwrap();
    assert_eq!(target, b"refs/heads/main");
    assert_eq!(read_head(&mut refs, &target, None), Ok(()));
    assert_eq!(refs.len(), 5);
    let paths: Vec<Vec<u8>> = (0..5).map(|i| refs.entry(i).unwrap().path.clone()).collect();
    assert_eq!(
        paths,
        [
            b"HEAD".to_vec(),
            b"refs/heads/main".to_vec(),
            b"refs/remotes/origin".to_vec(),
            b"refs/stash".to_vec(),
            b"refs/tags/v1.0".to_vec(),
        ]
    );
    assert!(refs.entry(5).is_none());
    assert_eq!(refs.entry(0).unwrap().hash, refs.entry(1).unwrap().hash);
}

#[test]
fn only_heads_gives_one_entry() {
    let repo = create_temp_refs(tag_and_remote());
    let refs = collect_refs(&repo.files, true, false).unwrap();
    assert_eq!(refs.len(), 1);
    assert_eq!(refs.entry(0).unwrap().path, b"refs/heads/main");
    assert_eq!(refs.entry(0).unwrap().hash, HEAD_HASH.as_bytes());
}

#[test]
fn clamp_keeps_what_is_in_range() {
    assert_eq!(clamp_hash_len(2), 4);
    assert_eq!(clamp_hash_len(50), 40);
    assert_eq!(clamp_hash_len(8), 8);
    assert_eq!(clamp_hash_len(0), 4);
    assert_eq!(clamp_hash_len(3), 4);
    assert_eq!(clamp_hash_len(4), 4);
    assert_eq!(clamp_hash_len(40), 40);
    assert_eq!(clamp_hash_len(41), 40);
    assert_eq!(clamp_hash_len(usize::MAX), 40);
}

#[test]
fn hash_limit_comes_before_abbrev() {
    let mut hash = [0u8; 40];
    hash.copy_from_slice(HEAD_HASH.as_bytes());
    let entry = RefEntry { path: b"refs/heads/main".to_vec(), hash };
    assert_eq!(format_ref(&entry, 6, Some(10)), b"aabbccddee");
    assert_eq!(format_ref(&entry, 6, None), b"aabbcc refs/heads/main");
    assert_eq!(format_ref(&entry, 100, Some(0)), b"aabb");
}

#[test]
fn selection_with_neither_filter_is_everything() {
    let all = RefSelection::new(false, false);
    assert_eq!(all, RefSelection { heads: true, tags: true, remotes: true, stash: true });
    assert_eq!(
        RefSelection::new(true, false),
        RefSelection { heads: true, tags: false, remotes: false, stash: false }
    );
    assert_eq!(
        RefSelection::new(true, true),
        RefSelection { heads: true, tags: true, remotes: false, stash: false }
    );
    assert!(all.includes(b"refs/heads/main"));
    assert!(all.includes(b"refs/heads/feature/x"));
    assert!(all.includes(b"refs/tags/v1.0"));
    assert!(all.includes(b"refs/remotes/origin/main"));
    assert!(all.includes(b"refs/stash"));
    assert!(!all.includes(b"refs/stash/x"));
    assert!(!all.includes(b"refs/stashed"));
    assert!(!all.includes(b"refs/heads"));
    assert!(!all.includes(b"refs/other/x"));
    assert!(!all.includes(b"HEAD"));
    let tags = RefSelection::new(false, true);
    assert!(tags.includes(b"refs/tags/v1.0"));
    assert!(!tags.includes(b"refs/heads/main"));
    assert!(!tags.includes(b"refs/stash"));
}

#[test]
fn refs_are_kept_in_the_order_of_their_paths() {
    let mut refs = RefMap::new();
    let paths = ["refs/heads/b", "refs/heads/a/b", "refs/heads/a.b", "refs/heads/a", "HEAD"];
    for path in paths {
        assert_eq!(add_ref(&mut refs, path.as_bytes(), HEAD_HASH.as_bytes()), Ok(()));
    }
    let sorted: Vec<String> = (0..refs.len())
        .map(|i| String::from_utf8(refs.entry(i).unwrap().path.clone()).unwrap())
        .collect();
    assert_eq!(
        sorted,
        ["HEAD", "refs/heads/a", "refs/heads/a.b", "refs/heads/a/b", "refs/heads/b"]
    );
}

#[test]
fn a_path_is_held_once_with_its_last_hash() {
    let mut refs = RefMap::new();
    add_ref(&mut refs, b"refs/heads/main", HEAD_HASH.as_bytes()).unwrap();
    add_ref(&mut refs, b"refs/tags/v1.0", TAG_HASH.as_bytes()).unwrap();
    add_ref(&mut refs, b"refs/heads/main", REMOTE_HASH.as_bytes()).unwrap();
    assert_eq!(refs.len(), 2);
    assert_eq!(refs.get(b"refs/heads/main").unwrap(), REMOTE_HASH.as_bytes());
    assert_eq!(refs.get(b"refs/tags/v1.0").unwrap(), TAG_HASH.as_bytes());
    assert!(refs.get(b"refs/heads/mai").is_none());
    assert!(refs.get(b"refs/heads/main2").is_none());
    assert!(refs.get(b"").is_none());
}

#[test]
fn a_ref_file_gives_its_first_forty_bytes() {
    let mut refs = RefMap::new();
    let with_newline = format!("{}\n", TAG_HASH);
    assert_eq!(add_ref(&mut refs, b"refs/tags/v1.0", with_newline.as_bytes()), Ok(()));
    assert_eq!(refs.get(b"refs/tags/v1.0").unwrap(), TAG_HASH.as_bytes());
    let short = &TAG_HASH.as_bytes()[..39];
    assert_eq!(add_ref(&mut refs, b"refs/tags/short", short), Err(RefError::ShortRead));
    assert_eq!(add_ref(&mut refs, b"refs/tags/empty", b""), Err(RefError::ShortRead));
    assert_eq!(refs.len(), 1);
}

#[test]
fn a_ref_is_added_only_if_its_file_exists() {
    let mut refs = RefMap::new();
    assert_eq!(add_ref_if_exists(&mut refs, b"refs/stash", None), Ok(()));
    assert_eq!(refs.len(), 0);
    assert_eq!(add_ref_if_exists(&mut refs, b"refs/stash", Some(STASH_HASH.as_bytes())), Ok(()));
    assert_eq!(refs.get(b"refs/stash").unwrap(), STASH_HASH.as_bytes());
    let broken = add_ref_if_exists(&mut refs, b"refs/broken", Some(b"abc"));
    assert_eq!(broken, Err(RefError::ShortRead));
    assert_eq!(refs.len(), 1);
}

#[test]
fn collecting_stops_at_a_file_that_is_too_short() {
    let files = vec![
        RefFile { path: b"refs/heads/main".to_vec(), content: HEAD_HASH.as_bytes().to_vec() },
        RefFile { path: b"refs/tags/broken".to_vec(), content: b"1234".to_vec() },
    ];
    assert!(matches!(collect_refs(&files, false, false), Err(RefError::ShortRead)));
    assert!(matches!(collect_refs(&files, false, true), Err(RefError::ShortRead)));
    assert_eq!(collect_refs(&files, true, false).unwrap().len(), 1);
}

#[test]
fn head_target_is_what_follows_the_prefix() {
    assert_eq!(read_head_target(b"ref: refs/heads/main\n"), Ok(b"refs/heads/main".to_vec()));
    assert_eq!(read_head_target(b"ref: refs/heads/main"), Ok(b"refs/heads/main".to_vec()));
    assert_eq!(read_head_target(b"ref: a\n\n"), Ok(b"a\n".to_vec()));
    assert_eq!(read_head_target(b"12345x\n"), Ok(b"x".to_vec()));
    assert_eq!(read_head_target(b"ref: "), Ok(b"".to_vec()));
    assert_eq!(read_head_target(b"ref"), Ok(b"".to_vec()));
    assert_eq!(read_head_target(b""), Ok(b"".to_vec()));
    assert_eq!(read_head_target(b"ref: \n"), Ok(b"".to_vec()));
    assert_eq!(read_head_target(b"ref: \xff\n"), Err(RefError::HeadNotUtf8));
}

#[test]
fn head_is_read_from_its_target_when_that_was_not_collected() {
    let repo = create_temp_refs(tag_and_remote());
    let mut refs = collect_refs(&repo.files, false, true).unwrap();
    assert_eq!(refs.len(), 1);
    assert_eq!(read_head(&mut refs, b"refs/heads/main", None), Err(RefError::HeadTargetMissing));
    assert_eq!(refs.len(), 1);
    assert_eq!(read_head(&mut refs, b"refs/heads/main", Some(b"short")), Err(RefError::ShortRead));
    assert_eq!(read_head(&mut refs, b"refs/heads/main", Some(HEAD_HASH.as_bytes())), Ok(()));
    assert_eq!(refs.len(), 2);
    assert_eq!(refs.get(b"HEAD").unwrap(), HEAD_HASH.as_bytes());

    // A target that was collected is not read again.
    assert_eq!(read_head(&mut refs, b"refs/tags/v1.0", Some(STASH_HASH.as_bytes())), Ok(()));
    assert_eq!(refs.get(b"HEAD").unwrap(), TAG_HASH.as_bytes());
}

#[test]
fn head_ref_content_names_the_branch() {
    assert_eq!(get_head_ref_content("main"), "ref: refs/heads/main\n");
    assert_eq!(get_head_ref_content("develop"), format!("ref: refs/heads/{}\n", "develop"));
    assert_eq!(get_head_ref_content(""), "ref: refs/heads/\n");
}

#[test]
fn no_refs_are_listed_as_nothing() {
    assert_eq!(format_refs(&RefMap::new(), 40, None), b"");
    assert_eq!(format_refs(&RefMap::new(), 40, Some(7)), b"");
}
