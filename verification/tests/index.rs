use git_plumbing::index::{
    assume_valid_of, calc_null_padding, compute_sha1, current_unix_time, flags_of, path_len_of,
    read_entry, read_git_index, read_n_be, read_u16_be, read_u32_be, stage_code_of, unix_time_from,
    unix_time_of, write_entry, write_git_index, write_u16_be, write_u32_be, IndexEntry, IndexError,
    MergeStatus,
};
use sha1::{Digest, Sha1};

fn entry(path: &str) -> IndexEntry {
    IndexEntry {
        ctime_secs: 1,
        ctime_nanos: 2,
        mtime_secs: 3,
        mtime_nanos: 4,
        dev: 5,
        ino: 6,
        mode: 0o100644,
        uid: 1000,
        gid: 1000,
        size: 13,
        assume_valid: false,
        stage: MergeStatus::Unmerged,
        sha1: [0xaa; 20],
        path: path.to_string(),
    }
}

/// The bytes of an index file with one entry for `file.txt`, without the
/// checksum.
fn one_entry_body() -> Vec<u8> {
    let mut body = Vec::new();
    body.extend_from_slice(b"DIRC");
    body.extend_from_slice(&[0, 0, 0, 2]);
    body.extend_from_slice(&[0, 0, 0, 1]);
    body.extend_from_slice(&[0, 0, 0, 1]);
    body.extend_from_slice(&[0, 0, 0, 2]);
    body.extend_from_slice(&[0, 0, 0, 3]);
    body.extend_from_slice(&[0, 0, 0, 4]);
    body.extend_from_slice(&[0, 0, 0, 5]);
    body.extend_from_slice(&[0, 0, 0, 6]);
    body.extend_from_slice(&[0, 0, 0x81, 0xa4]);
    body.extend_from_slice(&[0, 0, 0x03, 0xe8]);
    body.extend_from_slice(&[0, 0, 0x03, 0xe8]);
    body.extend_from_slice(&[0, 13]);
    body.extend_from_slice(&[0xaa; 20]);
    body.extend_from_slice(&[0x00, 0x08]);
    body.extend_from_slice(&[0, 0]);
    body.extend_from_slice(b"file.txt");
    body.extend_from_slice(&[0, 0]);
    body
}

#[test]
fn index_with_one_entry_is_written_byte_for_byte() {
    let written = write_git_index(&[entry("file.txt")]).unwrap();
    let body = one_entry_body();
    assert_eq!(body.len(), 12 + 72);
    assert_eq!(&written[..body.len()], &body[..]);
    assert_eq!(&written[body.len()..], &Sha1::digest(&body)[..]);
}

#[test]
fn index_without_entries() {
    let written = write_git_index(&[]).unwrap();
    let body = b"DIRC\x00\x00\x00\x02\x00\x00\x00\x00";
    assert_eq!(&written[..12], body);
    assert_eq!(&written[12..], &Sha1::digest(body)[..]);
    assert_eq!(read_git_index(&written).unwrap().len(), 0);
}

#[test]
fn index_round_trip() {
    let mut second = entry("a/much/longer/path/with/\u{e9}\u{4e16}\u{754c}.txt");
    second.assume_valid = true;
    second.stage = MergeStatus::Theirs;
    second.ctime_secs = u32::MAX;
    second.mtime_nanos = 999_999_999;
    second.mode = 0o100755;
    second.size = u16::MAX;
    second.sha1 = [
        0, 1, 2, 3, 4, 5, 6, 7, 8, 9, 10, 11, 12, 13, 14, 15, 16, 17, 18, 255,
    ];
    let mut third = entry("");
    third.stage = MergeStatus::Base;
    let mut fourth = entry("z");
    fourth.stage = MergeStatus::Ours;
    fourth.uid = 0;
    fourth.gid = 0x01020304;
    let entries = vec![entry("file.txt"), second, third, fourth];

    let written = write_git_index(&entries).unwrap();
    let read = read_git_index(&written).unwrap();
    assert_eq!(read, entries);
}

#[test]
fn index_keeps_the_order_of_the_entries() {
    let entries = vec![entry("b"), entry("a"), entry("c"), entry("a")];
    let read = read_git_index(&write_git_index(&entries).unwrap()).unwrap();
    let paths: Vec<&str> = read.iter().map(|e| e.path.as_str()).collect();
    assert_eq!(paths, ["b", "a", "c", "a"]);
}

#[test]
fn every_record_is_a_multiple_of_eight_bytes_long() {
    for len in 0..40 {
        let path = "p".repeat(len);
        let mut out = Vec::new();
        assert_eq!(write_entry(&mut out, &entry(&path)), Ok(()));
        assert_eq!(out.len() % 8, 0, "path of {} bytes", len);
        assert_eq!(out.len(), 62 + len + calc_null_padding(len));
        assert!(out[62 + len..].iter().all(|b| *b == 0));
    }
}

#[test]
fn padding_is_between_one_and_eight_bytes() {
    assert_eq!(calc_null_padding(0), 2);
    assert_eq!(calc_null_padding(1), 1);
    assert_eq!(calc_null_padding(2), 8);
    assert_eq!(calc_null_padding(3), 7);
    assert_eq!(calc_null_padding(8), 2);
    assert_eq!(calc_null_padding(9), 1);
    assert_eq!(calc_null_padding(10), 8);
    assert_eq!(calc_null_padding(4095), 3);
    assert_eq!(calc_null_padding(usize::MAX), 3);
    assert_eq!(calc_null_padding(usize::MAX - 5), 8);
}

#[test]
fn flags_hold_assume_valid_stage_and_path_length() {
    assert_eq!(flags_of(false, MergeStatus::Unmerged, 8), 0x0008);
    assert_eq!(flags_of(true, MergeStatus::Unmerged, 0), 0x8000);
    assert_eq!(flags_of(false, MergeStatus::Base, 0), 0x2000);
    assert_eq!(flags_of(false, MergeStatus::Ours, 0), 0x4000);
    assert_eq!(flags_of(false, MergeStatus::Theirs, 0), 0x6000);
    assert_eq!(flags_of(true, MergeStatus::Theirs, 3), 0xe003);
    assert_eq!(flags_of(false, MergeStatus::Unmerged, 4095), 0x0fff);

    assert!(assume_valid_of(0x8000));
    assert!(!assume_valid_of(0x7fff));
    assert_eq!(stage_code_of(0x0000), 0);
    assert_eq!(stage_code_of(0x2000), 1);
    assert_eq!(stage_code_of(0xc000), 2);
    assert_eq!(stage_code_of(0xffff), 3);
    assert_eq!(stage_code_of(0x1fff), 0);
    assert_eq!(path_len_of(0xe003), 3);
    assert_eq!(path_len_of(0xffff), 0x1fff);
    assert_eq!(path_len_of(0x0fff), 4095);
}

#[test]
fn merge_status_from_number() {
    assert_eq!(MergeStatus::try_from(0), Ok(MergeStatus::Unmerged));
    assert_eq!(MergeStatus::try_from(1), Ok(MergeStatus::Base));
    assert_eq!(MergeStatus::try_from(2), Ok(MergeStatus::Ours));
    assert_eq!(MergeStatus::try_from(3), Ok(MergeStatus::Theirs));
    assert_eq!(MergeStatus::try_from(4), Err(IndexError::InvalidStage));
    assert_eq!(MergeStatus::try_from(255), Err(IndexError::InvalidStage));
    assert_eq!(MergeStatus::Theirs.code(), 3);
}

#[test]
fn index_with_wrong_signature_is_refused() {
    let mut data = write_git_index(&[entry("file.txt")]).unwrap();
    data[3] = b'X';
    assert!(matches!(read_git_index(&data), Err(IndexError::InvalidSignature)));
    assert!(matches!(
        read_git_index(b"dirc\x00\x00\x00\x02\x00\x00\x00\x00"),
        Err(IndexError::InvalidSignature)
    ));
}

#[test]
fn index_with_another_version_is_refused() {
    for version in [0u32, 1, 3, 4, 0x0200_0000] {
        let mut data = write_git_index(&[entry("file.txt")]).unwrap();
        data[4..8].copy_from_slice(&version.to_be_bytes());
        assert!(matches!(read_git_index(&data), Err(IndexError::UnsupportedVersion)));
    }
}

#[test]
fn index_that_ends_early_is_refused() {
    let data = write_git_index(&[entry("file.txt"), entry("other")]).unwrap();
    for len in 0..data.len() {
        assert!(
            matches!(read_git_index(&data[..len]), Err(IndexError::ShortRead)),
            "the first {} bytes",
            len
        );
    }
    assert!(read_git_index(&data).is_ok());
}

#[test]
fn index_may_go_on_after_the_checksum() {
    let mut data = write_git_index(&[entry("file.txt")]).unwrap();
    data.extend_from_slice(b"TREE and more");
    assert_eq!(read_git_index(&data).unwrap().len(), 1);
}

#[test]
fn index_checksum_is_not_held_against_the_file() {
    let mut data = write_git_index(&[entry("file.txt")]).unwrap();
    let last = data.len() - 1;
    data[last] ^= 0xff;
    assert_eq!(read_git_index(&data).unwrap().len(), 1);
}

#[test]
fn index_counts_more_entries_than_it_holds() {
    let mut data = write_git_index(&[entry("file.txt")]).unwrap();
    data[11] = 2;
    assert!(matches!(read_git_index(&data), Err(IndexError::ShortRead)));
}

#[test]
fn index_path_that_is_not_utf8_is_refused() {
    let mut data = write_git_index(&[entry("file.txt")]).unwrap();
    data[12 + 62] = 0xff;
    assert!(matches!(read_git_index(&data), Err(IndexError::PathNotUtf8)));
}

#[test]
fn index_extended_flag_bytes_are_passed_over() {
    let mut data = write_git_index(&[entry("file.txt")]).unwrap();
    data[12 + 60] = 0xff;
    data[12 + 61] = 0xff;
    let read = read_git_index(&data).unwrap();
    assert_eq!(read[0], entry("file.txt"));
}

#[test]
fn index_path_of_4095_bytes_is_the_longest() {
    let longest = entry(&"x".repeat(4095));
    let written = write_git_index(&[longest.clone()]).unwrap();
    assert_eq!(read_git_index(&written).unwrap(), [longest]);

    let too_long = entry(&"x".repeat(4096));
    assert_eq!(write_git_index(&[entry("a"), too_long.clone()]), Err(IndexError::PathTooLong));
    let mut out = vec![1, 2, 3];
    assert_eq!(write_entry(&mut out, &too_long), Err(IndexError::PathTooLong));
    assert_eq!(out, [1, 2, 3]);
}

#[test]
fn read_entry_says_where_the_next_one_starts() {
    let data = write_git_index(&[entry("file.txt"), entry("b")]).unwrap();
    let (first, next) = read_entry(&data, 12).unwrap();
    assert_eq!(first, entry("file.txt"));
    assert_eq!(next, 12 + 72);
    let (second, end) = read_entry(&data, next).unwrap();
    assert_eq!(second, entry("b"));
    assert_eq!(end, next + 64);
    assert!(matches!(read_entry(&data, end), Err(IndexError::ShortRead)));
    assert!(matches!(read_entry(&data, usize::MAX), Err(IndexError::ShortRead)));
}

#[test]
fn big_endian_numbers() {
    let data = [0x01, 0x02, 0x03, 0x04, 0xff];
    assert_eq!(read_u32_be(&data, 0), Ok(0x01020304));
    assert_eq!(read_u32_be(&data, 1), Ok(0x020304ff));
    assert_eq!(read_u32_be(&data, 2), Err(IndexError::ShortRead));
    assert_eq!(read_u16_be(&data, 3), Ok(0x04ff));
    assert_eq!(read_u16_be(&data, 4), Err(IndexError::ShortRead));
    assert_eq!(read_u16_be(&data, usize::MAX), Err(IndexError::ShortRead));
    assert_eq!(read_n_be::<3>(&data, 2), Ok([0x03, 0x04, 0xff]));
    assert_eq!(read_n_be::<0>(&data, 5), Ok([]));
    assert_eq!(read_n_be::<3>(&data, 3), Err(IndexError::ShortRead));

    let mut out = Vec::new();
    write_u32_be(&mut out, 0xdeadbeef);
    write_u16_be(&mut out, 0x1234);
    write_u32_be(&mut out, 7);
    assert_eq!(out, [0xde, 0xad, 0xbe, 0xef, 0x12, 0x34, 0, 0, 0, 7]);
}

#[test]
fn entry_for_a_file_cuts_what_does_not_fit() {
    let made = IndexEntry::for_file(
        "src/main.rs".to_string(),
        (1_700_000_000, 123_456_789),
        0x1_0000_0005,
        0xffff_ffff_0000_0006,
        0o100644,
        1000,
        100,
        0x1_2345,
        [7; 20],
    );
    assert_eq!(made.ctime_secs, 1_700_000_000);
    assert_eq!(made.ctime_nanos, 123_456_789);
    assert_eq!(made.mtime_secs, 1_700_000_000);
    assert_eq!(made.mtime_nanos, 123_456_789);
    assert_eq!(made.dev, 5);
    assert_eq!(made.ino, 6);
    assert_eq!(made.mode, 0o100644);
    assert_eq!(made.uid, 1000);
    assert_eq!(made.gid, 100);
    assert_eq!(made.size, 0x2345);
    assert!(!made.assume_valid);
    assert_eq!(made.stage, MergeStatus::Unmerged);
    assert_eq!(made.sha1, [7; 20]);
    assert_eq!(made.path, "src/main.rs");
}

#[test]
fn unix_time_is_cut_to_32_bits() {
    assert_eq!(unix_time_of(1_700_000_000, 5), (1_700_000_000, 5));
    assert_eq!(unix_time_of(0x1_0000_0001, 999_999_999), (1, 999_999_999));
    assert_eq!(unix_time_from(Some((0x2_0000_0007, 42))), Some((7, 42)));
    assert_eq!(unix_time_from(Some((0, 0))), Some((0, 0)));
    assert_eq!(unix_time_from(None), None);
    let now = current_unix_time().expect("the clock is past 1970");
    assert!(now.0 > 1_600_000_000);
    assert!(now.1 < 1_000_000_000);
}

#[test]
fn sha1_of_file_content() {
    assert_eq!(compute_sha1(b"hello world").to_vec(), Sha1::digest(b"hello world").to_vec());
    assert_eq!(
        compute_sha1(b""),
        [
            0xda, 0x39, 0xa3, 0xee, 0x5e, 0x6b, 0x4b, 0x0d, 0x32, 0x55, 0xbf, 0xef, 0x95, 0x60,
            0x18, 0x90, 0xaf, 0xd8, 0x07, 0x09,
        ]
    );
}
