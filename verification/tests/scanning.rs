//! Scans of a source for signatures.

use std::cell::Cell;

use filerecovery::carver::checkpoint::{checkpoint_text, intern_ext, read_checkpoint};
use filerecovery::carver::regions::carve_regions;
use filerecovery::carver::{
    carve, carve_seeded, checkpoint_due, CarveOptions, CarveState, Carver, NoProgress, ProgressSink,
};
use filerecovery::hash::digest;
use filerecovery::signatures::{select, Signature};
use filerecovery::source::{BlockSource, ReadError, Source};

/// A small PNG: a header that passes validation, one byte of its own, and the footer.
fn png(own: u8) -> Vec<u8> {
    let mut out = vec![0x89, b'P', b'N', b'G', 0x0D, 0x0A, 0x1A, 0x0A];
    out.extend_from_slice(&[0, 0, 0, 13]);
    out.extend_from_slice(b"IHDR");
    out.extend_from_slice(&[0, 0, 0, 4, 0, 0, 0, 4, 8, 2, 0, 0, 0]);
    out.extend_from_slice(&[1, 2, 3, own]);
    out.extend_from_slice(&[0, 0, 0, 0]);
    out.extend_from_slice(b"IEND");
    out.extend_from_slice(&[0xAE, 0x42, 0x60, 0x82]);
    out
}

/// 4096 zero bytes with PNGs at the given offsets.
fn device(files: &[(usize, Vec<u8>)]) -> Vec<u8> {
    let mut img = vec![0u8; 4096];
    for (offset, data) in files {
        img[*offset..*offset + data.len()].copy_from_slice(data);
    }
    img
}

fn options() -> CarveOptions {
    CarveOptions {
        output_dir: "out".to_string(),
        start: 0,
        end: None,
        min_size: 0,
        max_files: None,
        allow_nested: false,
        validate: true,
        dedup: false,
        progress: false,
        checkpoint: None,
        resume: false,
        organize: false,
    }
}

fn png_only() -> Vec<Signature> {
    select(&vec!["png".to_string()]).unwrap()
}

fn offsets(st: &CarveState) -> Vec<u64> {
    st.stats.files.iter().map(|f| f.offset).collect()
}

#[test]
fn carved_files_carry_name_place_and_digest() {
    let src = Source::new(device(&[(0x64, png(7)), (0x800, png(8))]));
    let st = carve(&src, &png_only(), &options(), &NoProgress).unwrap();
    assert_eq!(offsets(&st), vec![0x64, 0x800]);
    let f = &st.stats.files[0];
    assert_eq!(f.name, "00000000_0x0000000000000064.png");
    assert_eq!(f.ext, "png");
    assert_eq!(f.size, png(7).len() as u64);
    assert_eq!(f.sha256, digest(&png(7)));
    assert_eq!(st.stats.files[1].name, "00000001_0x0000000000000800.png");
    assert_eq!(st.stats.files_recovered, 2);
    assert_eq!(st.stats.bytes_recovered, 2 * png(7).len() as u64);
    assert_eq!(st.stats.bytes_scanned, 4096);
    let by_type = st.stats.per_type();
    assert_eq!(by_type.len(), 1);
    assert_eq!(by_type[0].0, "png");
    assert_eq!(by_type[0].1.count, 2);
}

#[test]
fn organized_files_stand_under_their_type() {
    let src = Source::new(device(&[(0x10, png(1))]));
    let opts = CarveOptions {
        organize: true,
        ..options()
    };
    let st = carve(&src, &png_only(), &opts, &NoProgress).unwrap();
    assert_eq!(st.stats.files[0].name, "png/00000000_0x0000000000000010.png");
}

#[test]
fn equal_content_is_carved_once_with_dedup() {
    let src = Source::new(device(&[(0, png(1)), (512, png(1)), (1024, png(2))]));
    let opts = CarveOptions {
        dedup: true,
        ..options()
    };
    let st = carve(&src, &png_only(), &opts, &NoProgress).unwrap();
    assert_eq!(offsets(&st), vec![0, 1024]);
    assert_eq!(st.stats.duplicates, 1);
    let plain = carve(&src, &png_only(), &options(), &NoProgress).unwrap();
    assert_eq!(offsets(&plain), vec![0, 512, 1024]);
}

#[test]
fn a_seed_keeps_known_content_out() {
    let src = Source::new(device(&[(0, png(1)), (512, png(2))]));
    let opts = CarveOptions {
        dedup: true,
        ..options()
    };
    let seed = vec![digest(&png(1))];
    let st = carve_seeded(&src, &png_only(), &opts, &NoProgress, seed).unwrap();
    assert_eq!(offsets(&st), vec![512]);
    assert_eq!(st.stats.duplicates, 1);
}

#[test]
fn a_scan_stops_at_the_wanted_number_of_files() {
    let src = Source::new(device(&[(0, png(1)), (512, png(2)), (1024, png(3))]));
    let opts = CarveOptions {
        max_files: Some(2),
        ..options()
    };
    let st = carve(&src, &png_only(), &opts, &NoProgress).unwrap();
    assert!(st.full);
    assert_eq!(offsets(&st), vec![0, 512]);
}

#[test]
fn no_file_is_carved_where_none_is_wanted() {
    let src = Source::new(device(&[(0, png(1)), (512, png(2))]));
    for n in [0u64, 1, 2, 3] {
        let opts = CarveOptions {
            max_files: Some(n),
            ..options()
        };
        let st = carve_seeded(&src, &png_only(), &opts, &NoProgress, Vec::new()).unwrap();
        assert_eq!(st.stats.files_recovered, n.min(2));
        assert_eq!(st.stats.files.len() as u64, n.min(2));
        let st = carve_regions(&src, &png_only(), &opts, &NoProgress, &vec![(0, 4096)]).unwrap();
        assert_eq!(st.stats.files_recovered, n.min(2));
    }
}

#[test]
fn scanned_bytes_add_up_over_the_regions() {
    let src = Source::new(device(&[(100, png(1)), (2100, png(2))]));
    // The second region lies behind the end of the scan and is cut to nothing.
    let opts = CarveOptions {
        end: Some(3000),
        ..options()
    };
    let regions = vec![(0, 1000), (3500, 500), (2000, 600)];
    let st = carve_regions(&src, &png_only(), &opts, &NoProgress, &regions).unwrap();
    assert_eq!(offsets(&st), vec![100, 2100]);
    assert_eq!(st.stats.bytes_scanned, 1000 + 600);
    // The chunk in which the limit is reached does not count.
    let opts = CarveOptions {
        max_files: Some(2),
        ..opts
    };
    let st = carve_regions(&src, &png_only(), &opts, &NoProgress, &regions).unwrap();
    assert!(st.full);
    assert_eq!(st.stats.bytes_scanned, 1000);
    let whole = carve(&src, &png_only(), &options(), &NoProgress).unwrap();
    assert_eq!((whole.pos, whole.stats.bytes_scanned), (4096, 4096));
}

#[test]
fn a_name_holds_the_number_and_the_offset() {
    let mut img = vec![0u8; 0x3C_2000];
    for i in 0..8usize {
        let at = if i == 7 { 0x3C_1A00 } else { i * 512 };
        let data = png(i as u8);
        img[at..at + data.len()].copy_from_slice(&data);
    }
    let st = carve(&Source::new(img), &png_only(), &options(), &NoProgress).unwrap();
    assert_eq!(st.stats.files[7].name, "00000007_0x00000000003c1a00.png");
}

#[test]
fn small_files_are_left_out() {
    let src = Source::new(device(&[(0, png(1))]));
    let opts = CarveOptions {
        min_size: 1000,
        ..options()
    };
    let st = carve(&src, &png_only(), &opts, &NoProgress).unwrap();
    assert!(st.stats.files.is_empty());
    assert_eq!(st.stats.rejected, 0);
}

#[test]
fn an_invalid_header_is_rejected_unless_asked_for() {
    let mut bad = png(1);
    bad[12..16].copy_from_slice(b"XXXX");
    let src = Source::new(device(&[(0, bad)]));
    let st = carve(&src, &png_only(), &options(), &NoProgress).unwrap();
    assert!(st.stats.files.is_empty());
    assert_eq!(st.stats.rejected, 1);
    let opts = CarveOptions {
        validate: false,
        ..options()
    };
    let st = carve(&src, &png_only(), &opts, &NoProgress).unwrap();
    assert_eq!(offsets(&st), vec![0]);
}

#[test]
fn a_scan_keeps_to_its_bounds() {
    let src = Source::new(device(&[(0, png(1)), (512, png(2)), (1024, png(3))]));
    let opts = CarveOptions {
        start: 256,
        end: Some(1000),
        ..options()
    };
    let st = carve(&src, &png_only(), &opts, &NoProgress).unwrap();
    assert_eq!(offsets(&st), vec![512]);
    assert_eq!(Carver::new(&src, &png_only(), &opts).bounds(), (256, 1000));
}

#[test]
fn only_the_given_regions_are_carved() {
    let src = Source::new(device(&[(0, png(1)), (512, png(2)), (1024, png(3)), (2048, png(2))]));
    let regions = vec![(512u64, 256u64), (2048, 512)];
    let st = carve_regions(&src, &png_only(), &options(), &NoProgress, &regions).unwrap();
    assert_eq!(offsets(&st), vec![512, 2048]);
    assert_eq!(st.stats.bytes_scanned, 768);
    // Digests are carried from one region to the next.
    let opts = CarveOptions {
        dedup: true,
        ..options()
    };
    let st = carve_regions(&src, &png_only(), &opts, &NoProgress, &regions).unwrap();
    assert_eq!(offsets(&st), vec![512]);
    assert_eq!(st.stats.duplicates, 1);
    // A file that runs past its region is not carved.
    let cut = vec![(512u64, 20u64)];
    let st = carve_regions(&src, &png_only(), &options(), &NoProgress, &cut).unwrap();
    assert!(st.stats.files.is_empty());
}

#[test]
fn one_region_of_everything_is_the_whole_scan() {
    let src = Source::new(device(&[(0, png(1)), (512, png(2))]));
    let whole = carve(&src, &png_only(), &options(), &NoProgress).unwrap();
    let regions = vec![(0u64, 4096u64)];
    let st = carve_regions(&src, &png_only(), &options(), &NoProgress, &regions).unwrap();
    assert_eq!(offsets(&st), offsets(&whole));
    assert_eq!(st.stats.bytes_recovered, whole.stats.bytes_recovered);
}

/// Asks for cancellation from the first question on.
struct Impatient;

impl ProgressSink for Impatient {
    fn cancelled(&self) -> bool {
        true
    }
}

#[test]
fn a_cancelled_scan_returns_what_it_has() {
    let src = Source::new(device(&[(0, png(1))]));
    let st = carve(&src, &png_only(), &options(), &Impatient).unwrap();
    assert!(st.stats.files.is_empty());
    assert_eq!(st.pos, 0);
}

/// Serves no read at all.
struct Dead {
    asked: Cell<u32>,
}

impl BlockSource for Dead {
    fn size(&self) -> u64 {
        4096
    }

    fn read_at(&self, _offset: u64, _len: usize) -> Result<Vec<u8>, ReadError> {
        self.asked.set(self.asked.get() + 1);
        Err(ReadError { code: 5 })
    }
}

#[test]
fn a_failed_read_ends_the_scan() {
    let src = Dead {
        asked: Cell::new(0),
    };
    match carve(&src, &png_only(), &options(), &NoProgress) {
        Err(e) => assert_eq!(e.code, 5),
        Ok(_) => panic!("the read failed"),
    }
    assert_eq!(src.asked.get(), 1);
}

#[test]
fn a_checkpoint_reads_back() {
    let src = Source::new(device(&[(0, png(1)), (512, png(2))]));
    let opts = CarveOptions {
        dedup: true,
        ..options()
    };
    let st = carve(&src, &png_only(), &opts, &NoProgress).unwrap();
    let text = checkpoint_text(&st, 4096, true);
    assert!(text.starts_with("# filerecovery scan checkpoint v1\npos 4096\nend 4096\n"));
    let back = read_checkpoint(&text);
    assert_eq!(back.pos, 4096);
    assert_eq!(back.skip_until, st.skip_until);
    assert_eq!(back.seen, st.seen);
    assert_eq!(offsets(&back), offsets(&st));
    assert_eq!(back.stats.files[1].name, st.stats.files[1].name);
    assert_eq!(back.stats.files_recovered, 2);
}

#[test]
fn unreadable_lines_of_a_checkpoint_are_skipped() {
    let back = read_checkpoint("pos 12\nnonsense\nfiles x\nfile png 1 2\nskip_until 9\n");
    assert_eq!(back.pos, 12);
    assert_eq!(back.skip_until, 9);
    assert_eq!(back.stats.files_recovered, 0);
    assert!(back.stats.files.is_empty());
}

#[test]
fn a_resumed_scan_goes_on_where_it_stopped() {
    let src = Source::new(device(&[(0, png(1)), (2048, png(2))]));
    let half = CarveOptions {
        end: Some(1024),
        ..options()
    };
    let first = carve(&src, &png_only(), &half, &NoProgress).unwrap();
    let saved = read_checkpoint(&checkpoint_text(&first, 1024, false));
    let carver = Carver::new(&src, &png_only(), &options());
    let st = carver.resume(&options(), saved, Vec::new());
    assert_eq!(st.pos, 1024);
    let st = carver.run(&src, &options(), &NoProgress, st).unwrap();
    let whole = carve(&src, &png_only(), &options(), &NoProgress).unwrap();
    assert_eq!(offsets(&st), offsets(&whole));
    assert_eq!(st.stats.files[1].name, whole.stats.files[1].name);
}

#[test]
fn extensions_resolve_to_the_table() {
    assert_eq!(intern_ext(&"png".chars().collect()), Some("png"));
    assert_eq!(intern_ext(&"nope".chars().collect()), None);
}

#[test]
fn checkpoints_are_due_every_quarter_gibibyte() {
    assert!(!checkpoint_due(0x0FFF_FFFF, 0));
    assert!(checkpoint_due(0x1000_0000, 0));
    assert!(!checkpoint_due(0x1000_0000, 1));
}

#[test]
fn an_unknown_type_cannot_be_selected() {
    match select(&vec!["png".to_string(), "nope".to_string()]) {
        Err(e) => {
            assert_eq!(e.name, "nope");
            assert!(e.message().contains("nope"));
        }
        Ok(_) => panic!("no such type"),
    }
}
