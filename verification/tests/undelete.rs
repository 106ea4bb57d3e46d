//! Undelete from FAT, exFAT and ext volumes, and the two passes of a full recovery.

use filerecovery::carver::NoProgress;
use filerecovery::cli::recover_options;
use filerecovery::hash::digest;
use filerecovery::numbers::to_hex;
use filerecovery::recover::detection::{
    detect_with, recognise, try_parse_volume, DetectError,
};
use filerecovery::recover::passes::{
    carve_ranges, carve_rest, carve_totals, free_space_of, recover_rows, recover_volumes, seed_of,
    totals, undelete_rows, undelete_volumes, volume_dir, volumes_to_recover, CarvePassError,
    SelectError, VolumeRun,
};
use filerecovery::recover::options::RecoverOptions;
use filerecovery::recover::plan::{read_pieces, recover_plans, Piece, Plan, Style};
use filerecovery::recover::{deleted_counts, detect, parse_at, scan_lost_volumes, Volume};
use filerecovery::source::{BlockSource, ReadError, Source};
use filerecovery::volume::VolumeError;

fn put(img: &mut [u8], at: usize, data: &[u8]) {
    img[at..at + data.len()].copy_from_slice(data);
}

fn put16(img: &mut [u8], at: usize, v: u16) {
    put(img, at, &v.to_le_bytes());
}

fn put32(img: &mut [u8], at: usize, v: u32) {
    put(img, at, &v.to_le_bytes());
}

fn put64(img: &mut [u8], at: usize, v: u64) {
    put(img, at, &v.to_le_bytes());
}

fn png(own: u8) -> Vec<u8> {
    let mut out = vec![0x89, b'P', b'N', b'G', 0x0D, 0x0A, 0x1A, 0x0A];
    out.extend_from_slice(&[0, 0, 0, 13]);
    out.extend_from_slice(b"IHDR");
    out.extend_from_slice(&[0, 0, 0, 4, 0, 0, 0, 4, 8, 2, 0, 0, 0]);
    out.extend_from_slice(&[1, 2, 3, own]);
    out.extend_from_slice(&[0, 0, 0, 0]);
    out.extend_from_slice(b"IEND");
    out.extend_from_slice(&[0xAE, 0x42, 0x60, 0x82]);
    out
}

fn pattern(n: usize) -> Vec<u8> {
    (0..n).map(|i| (i % 251) as u8).collect()
}

/// A FAT12 volume of 64 sectors with one sector per cluster. `HELLO.TXT` at cluster 2 is
/// deleted, `LIVE.TXT` at cluster 5 is not. The data region begins at 1536.
fn fat(content: &[u8]) -> Vec<u8> {
    let mut img = vec![0u8; 64 * 512];
    put(&mut img, 0, &[0xEB, 0x3C, 0x90]);
    put16(&mut img, 11, 512);
    img[13] = 1;
    put16(&mut img, 14, 1);
    img[16] = 1;
    put16(&mut img, 17, 16);
    put16(&mut img, 19, 64);
    put16(&mut img, 22, 1);
    put(&mut img, 510, &[0x55, 0xAA]);
    // Cluster 5 ends a chain: the upper 12 bits at 5 * 3 / 2.
    put16(&mut img, 512 + 7, 0xFFF0);
    put(&mut img, 1024, b"\xE5ELLO   TXT");
    img[1024 + 11] = 0x20;
    put16(&mut img, 1024 + 26, 2);
    put32(&mut img, 1024 + 28, content.len() as u32);
    put(&mut img, 1056, b"LIVE    TXT");
    img[1056 + 11] = 0x20;
    put16(&mut img, 1056 + 26, 5);
    put32(&mut img, 1056 + 28, 100);
    put(&mut img, 1536, content);
    img
}

/// An exFAT volume of 64 sectors with one sector per cluster. The cluster heap begins at
/// 8192; `gone.txt` at cluster 5 is deleted.
fn exfat(content: &[u8]) -> Vec<u8> {
    let mut img = vec![0u8; 64 * 512];
    put(&mut img, 0, &[0xEB, 0x76, 0x90]);
    put(&mut img, 3, b"EXFAT   ");
    put64(&mut img, 72, 64);
    put32(&mut img, 80, 8);
    put32(&mut img, 84, 1);
    put32(&mut img, 88, 16);
    put32(&mut img, 92, 48);
    put32(&mut img, 96, 2);
    img[108] = 9;
    img[109] = 0;
    img[110] = 1;
    put(&mut img, 510, &[0x55, 0xAA]);
    put32(&mut img, 4096 + 2 * 4, 0xFFFF_FFFF);
    put32(&mut img, 4096 + 3 * 4, 0xFFFF_FFFF);
    // Root directory: the allocation bitmap, then the deleted file's entry set.
    let root = 8192;
    img[root] = 0x81;
    put32(&mut img, root + 20, 3);
    put64(&mut img, root + 24, 6);
    let file = root + 32;
    img[file] = 0x05;
    img[file + 1] = 2;
    put16(&mut img, file + 4, 0x20);
    let stream = file + 32;
    img[stream] = 0x40;
    img[stream + 1] = 0x03;
    img[stream + 3] = 8;
    put64(&mut img, stream + 8, content.len() as u64);
    put32(&mut img, stream + 20, 5);
    put64(&mut img, stream + 24, content.len() as u64);
    let name = stream + 32;
    img[name] = 0x41;
    for (i, b) in b"gone.txt".iter().enumerate() {
        img[name + 2 + 2 * i] = *b;
    }
    // Clusters 2 and 3 are in use.
    img[8704] = 0x03;
    put(&mut img, 9728, content);
    img
}

/// An ext2 volume of 64 blocks of 1024 bytes. `gone.txt`, inode 12 with its data in block
/// 10, is deleted; its entry stands in the slack of `live.txt`.
fn ext2(content: &[u8]) -> Vec<u8> {
    let mut img = vec![0u8; 64 * 1024];
    let sb = 1024;
    put32(&mut img, sb, 16);
    put32(&mut img, sb + 4, 64);
    put32(&mut img, sb + 0x14, 1);
    put32(&mut img, sb + 0x18, 0);
    put32(&mut img, sb + 0x20, 8192);
    put32(&mut img, sb + 0x28, 16);
    put16(&mut img, sb + 0x38, 0xEF53);
    put16(&mut img, sb + 0x58, 128);
    put32(&mut img, sb + 0x60, 2);
    // Group descriptor: block bitmap in block 3, inode table in block 5.
    put32(&mut img, 2048, 3);
    put32(&mut img, 2048 + 8, 5);
    put(&mut img, 3 * 1024, &[0xFF, 0x03]);
    let root = 5 * 1024 + 128;
    put16(&mut img, root, 0x41ED);
    put32(&mut img, root + 4, 1024);
    put16(&mut img, root + 26, 2);
    put32(&mut img, root + 40, 8);
    let gone = 5 * 1024 + 11 * 128;
    put16(&mut img, gone, 0x81A4);
    put32(&mut img, gone + 4, content.len() as u32);
    put32(&mut img, gone + 20, 1);
    put32(&mut img, gone + 40, 10);
    let live = 5 * 1024 + 12 * 128;
    put16(&mut img, live, 0x81A4);
    put16(&mut img, live + 26, 1);
    let dir = 8 * 1024;
    put32(&mut img, dir, 2);
    put16(&mut img, dir + 4, 12);
    img[dir + 6] = 1;
    img[dir + 8] = b'.';
    put32(&mut img, dir + 12, 2);
    put16(&mut img, dir + 16, 12);
    img[dir + 18] = 2;
    put(&mut img, dir + 20, b"..");
    put32(&mut img, dir + 24, 13);
    put16(&mut img, dir + 28, 1000);
    img[dir + 30] = 8;
    put(&mut img, dir + 32, b"live.txt");
    put32(&mut img, dir + 40, 12);
    put16(&mut img, dir + 44, 984);
    img[dir + 46] = 8;
    put(&mut img, dir + 48, b"gone.txt");
    put(&mut img, 10 * 1024, content);
    img
}

fn runs_of(src: &Source, min_size: u64, dry_run: bool) -> Vec<VolumeRun> {
    let vols = detect(src).unwrap();
    recover_volumes(src, &vols, &recover_options(min_size, dry_run))
}

/// One volume with one deleted file of the given path and content.
fn assert_recovers(img: Vec<u8>, path: &str, content: &[u8]) {
    let src = Source::new(img);
    let runs = runs_of(&src, 0, false);
    assert_eq!(runs.len(), 1);
    let run = &runs[0];
    assert_eq!(run.recovery.stats.recovered, 1);
    assert_eq!(run.recovery.stats.bytes_recovered, content.len() as u64);
    assert_eq!(run.recovery.stats.skipped, 0);
    let f = &run.recovery.stats.files[0];
    assert_eq!(f.path, path);
    assert_eq!(f.size, content.len() as u64);
    assert!(f.recovered);
    assert_eq!(f.sha256, Some(digest(content)));
    assert_eq!(run.recovery.taken.len(), 1);
    let plan = &run.plans[run.recovery.taken[0]];
    assert_eq!(read_pieces(&src, &plan.pieces).unwrap(), content);
}

#[test]
fn fat_keeps_all_but_the_first_letter() {
    assert_recovers(fat(&pattern(700)), "_ELLO.TXT", &pattern(700));
}

#[test]
fn exfat_keeps_the_whole_name() {
    assert_recovers(exfat(&pattern(600)), "gone.txt", &pattern(600));
}

#[test]
fn exfat_follows_the_chain_of_a_fragmented_file() {
    let content = pattern(600);
    let mut img = exfat(&content[..512]);
    let stream = 8192 + 64;
    img[stream + 1] = 0x01;
    put64(&mut img, stream + 8, 600);
    put64(&mut img, stream + 24, 600);
    put32(&mut img, 4096 + 5 * 4, 7);
    put32(&mut img, 4096 + 7 * 4, 0xFFFF_FFFF);
    put(&mut img, 9728 + 2 * 512, &content[512..]);
    assert_recovers(img, "gone.txt", &content);
}

#[test]
fn ext_finds_the_entry_in_the_slack() {
    assert_recovers(ext2(&pattern(600)), "gone.txt", &pattern(600));
}

#[test]
fn ext_reassembles_a_fragmented_file() {
    let content = pattern(3000);
    let mut img = ext2(&content[..1024]);
    let gone = 5 * 1024 + 11 * 128;
    put32(&mut img, gone + 4, 3000);
    put32(&mut img, gone + 44, 20);
    put32(&mut img, gone + 48, 15);
    put(&mut img, 20 * 1024, &content[1024..2048]);
    put(&mut img, 15 * 1024, &content[2048..]);
    assert_recovers(img, "gone.txt", &content);
}

#[test]
fn a_long_name_wins_over_the_short_one() {
    let mut img = fat(&pattern(10));
    let short: Vec<u8> = img[1024..1056].to_vec();
    put(&mut img, 1056, &short);
    let mut slot = vec![0u8; 32];
    slot[0] = 0xE5;
    slot[11] = 0x0F;
    for (i, at) in [1usize, 3, 5, 7, 9, 14].iter().enumerate() {
        slot[*at] = b"Hi.txt"[i];
    }
    put(&mut img, 1024, &slot);
    assert_recovers(img, "Hi.txt", &pattern(10));
}

#[test]
fn a_dry_run_lists_without_taking() {
    let src = Source::new(fat(&pattern(700)));
    let runs = runs_of(&src, 0, true);
    assert_eq!(runs[0].recovery.stats.recovered, 1);
    assert!(runs[0].recovery.taken.is_empty());
    assert_eq!(runs[0].recovery.stats.files[0].sha256, None);
    let vols = detect(&src).unwrap();
    assert_eq!(deleted_counts(&src, &vols, true), vec![Some(1)]);
    assert_eq!(deleted_counts(&src, &vols, false), vec![None]);
}

#[test]
fn small_deleted_files_are_ignored() {
    let src = Source::new(fat(&pattern(700)));
    let runs = runs_of(&src, 701, false);
    assert_eq!(runs[0].recovery.stats.recovered, 0);
    assert_eq!(runs[0].recovery.stats.skipped, 0);
    assert!(runs[0].recovery.stats.files.is_empty());
}

#[test]
fn a_file_that_leaves_the_volume_is_skipped() {
    let mut img = fat(&pattern(700));
    put32(&mut img, 1024 + 28, 64 * 512);
    let src = Source::new(img);
    let runs = runs_of(&src, 0, false);
    assert_eq!(runs[0].recovery.stats.recovered, 0);
    assert_eq!(runs[0].recovery.stats.skipped, 1);
}

#[test]
fn free_clusters_of_a_fat_volume() {
    let src = Source::new(fat(&pattern(10)));
    let vols = detect(&src).unwrap();
    assert_eq!(vols[0].fs_label(), "FAT12");
    assert_eq!(
        vols[0].free_extents(&src),
        Some(vec![(1536, 1536), (3584, 57 * 512)])
    );
}

#[test]
fn free_clusters_of_an_exfat_volume() {
    let src = Source::new(exfat(&pattern(10)));
    let vols = detect(&src).unwrap();
    assert_eq!(vols[0].free_extents(&src), Some(vec![(9216, 46 * 512)]));
}

#[test]
fn free_blocks_of_an_ext_volume() {
    let src = Source::new(ext2(&pattern(10)));
    let vols = detect(&src).unwrap();
    assert_eq!(vols[0].free_extents(&src), Some(vec![(11 * 1024, 53 * 1024)]));
}

/// A disk with a FAT volume behind an MBR partition table.
fn partitioned(content: &[u8]) -> Vec<u8> {
    let mut disk = vec![0u8; 8 * 512];
    disk[446 + 4] = 0x01;
    put32(&mut disk, 446 + 8, 8);
    put32(&mut disk, 446 + 12, 64);
    put(&mut disk, 510, &[0x55, 0xAA]);
    disk.extend_from_slice(&fat(content));
    disk
}

#[test]
fn a_partition_table_leads_to_the_volume() {
    let src = Source::new(partitioned(&pattern(700)));
    let vols = detect(&src).unwrap();
    assert_eq!(vols.len(), 1);
    assert_eq!(vols[0].offset(), 4096);
    assert_eq!(parse_at(&src, 4096).unwrap().offset(), 4096);
    assert_recovers(partitioned(&pattern(700)), "_ELLO.TXT", &pattern(700));
}

#[test]
fn a_lost_volume_is_found_without_the_table() {
    let mut disk = partitioned(&pattern(10));
    put(&mut disk, 0, &[0u8; 512]);
    let src = Source::new(disk);
    assert!(matches!(detect(&src), Err(DetectError::NoVolumes)));
    let vols = scan_lost_volumes(&src, 512, &NoProgress).unwrap();
    assert_eq!(vols.len(), 1);
    assert_eq!(vols[0].offset(), 4096);
}

#[test]
fn nothing_to_detect() {
    assert!(matches!(
        detect(&Source::new(vec![0u8; 100])),
        Err(DetectError::TooSmall)
    ));
    let blank = Source::new(vec![0u8; 8192]);
    assert!(matches!(detect(&blank), Err(DetectError::NoVolumes)));
    assert!(volumes_to_recover(&blank, None).unwrap().is_empty());
    assert!(volumes_to_recover(&blank, Some(0)).is_err());
    assert!(matches!(
        parse_at(&blank, 8000),
        Err(VolumeError::Truncated) | Err(VolumeError::NotRecognised)
    ));
}

#[test]
fn rows_name_the_volume_and_the_digest() {
    let src = Source::new(fat(&pattern(700)));
    let runs = runs_of(&src, 0, false);
    let rows = undelete_rows(&runs);
    assert_eq!(rows.len(), 1);
    assert_eq!(rows[0].filesystem, "FAT12");
    assert_eq!(rows[0].volume_offset, 0);
    assert_eq!(rows[0].path, "_ELLO.TXT");
    assert_eq!(rows[0].sha256, to_hex(&digest(&pattern(700))));
    assert_eq!(volume_dir(3), "volume_3");
    let t = totals(&runs);
    assert_eq!((t.recovered, t.bytes_recovered, t.skipped), (1, 700, 0));
}

#[test]
fn carving_leaves_out_what_undelete_restored() {
    let mut img = fat(&png(1));
    // A second picture that no directory entry names, in cluster 10.
    put(&mut img, 1536 + 8 * 512, &png(2));
    let src = Source::new(img);
    let runs = runs_of(&src, 0, false);
    assert_eq!(seed_of(&runs), vec![digest(&png(1))]);
    let types = vec!["png".to_string()];
    let st = carve_rest(&src, &types, 0, false, &NoProgress, &runs).ok().unwrap();
    assert_eq!(st.stats.files.len(), 1);
    assert_eq!(st.stats.files[0].offset, 1536 + 8 * 512);
    assert_eq!(st.stats.duplicates, 1);
    let rows = recover_rows(&runs, &vec![st]);
    assert_eq!(rows.len(), 2);
    assert_eq!(rows[0].kind, "named");
    assert_eq!(rows[0].path, "named/_ELLO.TXT");
    assert_eq!(rows[1].kind, "carved");
    assert_eq!(rows[1].path, "carved/00000000_0x0000000000001600.png");
    assert_eq!(rows[1].sha256, to_hex(&digest(&png(2))));
}

#[test]
fn live_clusters_are_not_carved_from_free_space() {
    let mut img = fat(&pattern(10));
    put(&mut img, 3072, &png(1));
    put(&mut img, 1536 + 8 * 512, &png(2));
    let src = Source::new(img);
    let vols = detect(&src).unwrap();
    let runs = runs_of(&src, 0, false);
    let free = free_space_of(&src, &vols).unwrap();
    let types = vec!["png".to_string()];
    let scans = carve_ranges(&src, &types, 0, false, &NoProgress, &runs, &free)
        .ok()
        .unwrap();
    assert_eq!(scans.len(), 2);
    let t = carve_totals(&scans);
    assert_eq!((t.files, t.bytes, t.duplicates), (1, png(2).len() as u64, 0));
    assert_eq!(scans[1].stats.files[0].offset, 1536 + 8 * 512);
    assert!(free_space_of(&src, &Vec::new()).is_none());
}

#[test]
fn a_copy_in_another_free_region_is_not_carved_again() {
    // Cluster 5 is live and parts the free space in two; the third picture is that of
    // the deleted file.
    let mut img = fat(&png(1));
    put(&mut img, 1536 + 512, &png(2));
    put(&mut img, 1536 + 8 * 512, &png(2));
    put(&mut img, 1536 + 10 * 512, &png(1));
    let src = Source::new(img);
    let vols = detect(&src).unwrap();
    let runs = runs_of(&src, 0, false);
    let free = free_space_of(&src, &vols).unwrap();
    assert_eq!(free.len(), 2);
    let types = vec!["png".to_string()];
    let scans = carve_ranges(&src, &types, 0, false, &NoProgress, &runs, &free)
        .ok()
        .unwrap();
    let t = carve_totals(&scans);
    assert_eq!((t.files, t.duplicates), (1, 3));
    let rows = recover_rows(&runs, &scans);
    let shas: Vec<String> = rows.iter().map(|r| r.sha256.clone()).collect();
    assert_eq!(shas, vec![to_hex(&digest(&png(1))), to_hex(&digest(&png(2)))]);
}

#[test]
fn optical_volumes_are_parsed_at_an_offset() {
    let mut img = vec![0u8; 40960];
    img[32768] = 1;
    put(&mut img, 32769, b"CD001");
    assert!(matches!(parse_at(&Source::new(img), 0), Ok(Volume::Iso(_))));
    let mut img = vec![0u8; 16 * 2048 + 8 * 2048];
    for (i, id) in [b"BEA01", b"NSR03", b"TEA01"].iter().enumerate() {
        put(&mut img, 32768 + i * 2048 + 1, &id[..]);
    }
    assert!(matches!(parse_at(&Source::new(img), 0), Ok(Volume::Udf(_))));
}

/// Refuses every read that touches a range.
struct Failing {
    data: Vec<u8>,
    bad: std::ops::Range<u64>,
}

impl BlockSource for Failing {
    fn size(&self) -> u64 {
        self.data.len() as u64
    }

    fn read_at(&self, offset: u64, len: usize) -> Result<Vec<u8>, ReadError> {
        let end = offset + len as u64;
        if offset < self.bad.end && end > self.bad.start {
            return Err(ReadError { code: 5 });
        }
        let start = (offset as usize).min(self.data.len());
        let stop = (end as usize).min(self.data.len());
        Ok(self.data[start..stop].to_vec())
    }
}

#[test]
fn only_the_unreadable_file_is_lost() {
    let src = Failing {
        data: pattern(4096),
        bad: 1024..1536,
    };
    let plan = |path: &str, offset: u64| Plan {
        path: path.to_string(),
        size: 100,
        mtime: None,
        atime: None,
        valid: true,
        pieces: vec![Piece::Data { offset, len: 100 }],
    };
    let plans = vec![plan("a", 0), plan("b", 1100), plan("c", 2048)];
    let style = Style {
        nominal: false,
        keep_empty: false,
    };
    let r = recover_plans(&src, &RecoverOptions::default(), &plans, style);
    assert_eq!(r.taken, vec![0, 2]);
    assert_eq!((r.stats.recovered, r.stats.skipped), (2, 1));
    assert_eq!(r.stats.files[2].sha256, Some(digest(&pattern(4096)[2048..2148])));
}

/// The FAT volume with two live directories: `A` in cluster 10 and `B` in cluster 12,
/// each with a deleted file.
fn two_dirs() -> Vec<u8> {
    let mut img = fat(&pattern(10));
    for (at, name, cluster) in [(1056, b'A', 10u16), (1088, b'B', 12)] {
        put(&mut img, at, b"           ");
        img[at] = name;
        img[at + 11] = 0x10;
        put16(&mut img, at + 26, cluster);
        let dir = 1536 + (cluster as usize - 2) * 512;
        put(&mut img, dir, b"\xE5ONE    TXT");
        img[dir + 11] = 0x20;
        put16(&mut img, dir + 26, 20);
        put32(&mut img, dir + 28, 5);
    }
    // Clusters 10 and 12 end their chains: the lower 12 bits at 15 and 18.
    put16(&mut img, 512 + 15, 0x0FFF);
    put16(&mut img, 512 + 18, 0x0FFF);
    img
}

#[test]
fn an_unreadable_directory_is_passed_over() {
    let paths = |bad: std::ops::Range<u64>| -> Vec<String> {
        let src = Failing {
            data: two_dirs(),
            bad,
        };
        let Ok(Volume::Fat(v)) = parse_at(&src, 0) else {
            panic!("a FAT volume")
        };
        v.walk(&src).iter().map(|d| d.path.iter().collect()).collect()
    };
    assert_eq!(paths(0..0), vec!["_ELLO.TXT", "B/_ONE.TXT", "A/_ONE.TXT"]);
    let a = 1536 + 8 * 512;
    assert_eq!(paths(a..a + 512), vec!["_ELLO.TXT", "B/_ONE.TXT"]);
    let b = 1536 + 10 * 512;
    assert_eq!(paths(b..b + 512), vec!["_ELLO.TXT", "A/_ONE.TXT"]);
}

#[test]
fn detection_tells_failed_reads() {
    let boot = Failing {
        data: fat(&pattern(10)),
        bad: 0..512,
    };
    assert!(matches!(try_parse_volume(&boot, 0), Err(ReadError { code: 5 })));
    assert!(matches!(
        detect(&boot),
        Err(DetectError::Read(ReadError { code: 5 }))
    ));
    assert!(matches!(
        undelete_volumes(&boot, None),
        Err(SelectError::Detect(DetectError::Read(_)))
    ));
    assert!(matches!(
        undelete_volumes(&boot, Some(0)),
        Err(SelectError::At(VolumeError::Read(_)))
    ));
    assert!(volumes_to_recover(&boot, None).unwrap().is_empty());
    // A bad sector far from what tells the volume does not matter.
    let later = Failing {
        data: fat(&pattern(10)),
        bad: 20480..20992,
    };
    assert_eq!(detect(&later).unwrap()[0].fs_label(), "FAT12");
    assert_eq!(scan_lost_volumes(&later, 512, &NoProgress).unwrap().len(), 1);
}

#[test]
fn what_was_read_of_the_first_sector_decides() {
    let src = Source::new(fat(&pattern(10)));
    let failed = || Err(VolumeError::Read(ReadError { code: 9 }));
    assert!(matches!(recognise(&src, 0, failed()), Err(ReadError { code: 9 })));
    assert!(matches!(
        detect_with(&src, failed()),
        Err(DetectError::Read(ReadError { code: 9 }))
    ));
    let boot = src.read_at(0, 512).unwrap();
    assert!(matches!(recognise(&src, 0, Ok(boot.clone())), Ok(Some(Volume::Fat(_)))));
    assert_eq!(detect_with(&src, Ok(boot)).unwrap().len(), 1);
    let short = Source::new(vec![0u8; 100]);
    let cut = || Err(VolumeError::Truncated);
    assert!(matches!(recognise(&short, 0, cut()), Ok(None)));
    assert!(matches!(detect_with(&short, cut()), Err(DetectError::TooSmall)));
}

#[test]
fn a_deleted_file_with_an_unreadable_inode_is_passed_over() {
    let mut img = ext2(&pattern(10));
    // A second deleted file, inode 14, stands in the slack behind the first; its inode
    // lies in another sector.
    let dir = 8 * 1024;
    put32(&mut img, dir + 56, 14);
    put16(&mut img, dir + 60, 968);
    img[dir + 62] = 8;
    put(&mut img, dir + 64, b"more.txt");
    let more = 5 * 1024 + 13 * 128;
    put16(&mut img, more, 0x81A4);
    put32(&mut img, more + 4, 3);
    put32(&mut img, more + 20, 1);
    put32(&mut img, more + 40, 11);
    let inos = |bad: std::ops::Range<u64>| -> Vec<u32> {
        let src = Failing {
            data: img.clone(),
            bad,
        };
        let Ok(Volume::Ext(v)) = parse_at(&src, 0) else {
            panic!("an ext volume")
        };
        v.walk(&src).iter().map(|d| d.ino).collect()
    };
    assert_eq!(inos(0..0), vec![12, 14]);
    let gone = 5 * 1024 + 11 * 128;
    assert_eq!(inos(gone..gone + 128), vec![14]);
    assert_eq!(inos(dir as u64..dir as u64 + 1), Vec::<u32>::new());
}

#[test]
fn the_second_pass_refuses_an_unknown_type() {
    let src = Source::new(fat(&pattern(10)));
    let types = vec!["nope".to_string()];
    match carve_rest(&src, &types, 0, false, &NoProgress, &Vec::new()) {
        Err(CarvePassError::UnknownType(e)) => assert_eq!(e.name, "nope"),
        _ => panic!("no such type"),
    }
}

#[test]
fn times_are_kept() {
    let mut img = fat(&pattern(10));
    // Changed on 2000-02-29 at 12:34:56, read on that day.
    put16(&mut img, 1024 + 24, (20 << 9) | (2 << 5) | 29);
    put16(&mut img, 1024 + 22, (12 << 11) | (34 << 5) | 28);
    put16(&mut img, 1024 + 18, (20 << 9) | (2 << 5) | 29);
    let src = Source::new(img);
    let plan = &runs_of(&src, 0, false)[0].plans[0];
    assert_eq!(plan.mtime.map(|t| t.secs), Some(951_827_696));
    assert_eq!(plan.atime.map(|t| t.secs), Some(951_782_400));

    let mut img = ext2(&pattern(10));
    let gone = 5 * 1024 + 11 * 128;
    put32(&mut img, gone + 16, 1_600_000_000);
    let src = Source::new(img);
    let plan = &runs_of(&src, 0, false)[0].plans[0];
    assert_eq!(plan.mtime.map(|t| t.secs), Some(1_600_000_000));
    assert!(plan.atime.is_none());
}

#[test]
fn an_undelete_needs_a_volume() {
    let blank = Source::new(vec![0u8; 8192]);
    match undelete_volumes(&blank, None) {
        Err(e) => {
            assert_eq!(e, SelectError::Detect(DetectError::NoVolumes));
            assert!(e.message().starts_with("no FAT, exFAT, "));
        }
        Ok(_) => panic!("there is none"),
    }
    assert!(matches!(
        undelete_volumes(&blank, Some(0)),
        Err(SelectError::At(_))
    ));
    let src = Source::new(partitioned(&pattern(10)));
    assert_eq!(undelete_volumes(&src, Some(4096)).unwrap().len(), 1);
    assert_eq!(undelete_volumes(&src, None).unwrap()[0].offset(), 4096);
    assert_eq!(
        DetectError::TooSmall.message(),
        "source too small to contain a filesystem"
    );
}
