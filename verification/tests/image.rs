//! Imaging, from sources that fail among others.

use filerecovery::carver::NoProgress;
use filerecovery::image::{image, ImageOptions};
use filerecovery::source::{BlockSource, ReadError, Source};

/// An in-memory source that can be told to fail reads over a byte range, so
/// the bad-sector path is exercised without real failing hardware.
struct FaultySource {
    data: Vec<u8>,
    bad: std::ops::Range<u64>,
}

impl BlockSource for FaultySource {
    fn size(&self) -> u64 {
        self.data.len() as u64
    }

    fn read_at(&self, offset: u64, len: usize) -> Result<Vec<u8>, ReadError> {
        // Any overlap with the bad range fails the whole read, just like a
        // kernel EIO covering a request that spans an unreadable sector.
        if offset < self.bad.end && offset + len as u64 > self.bad.start {
            return Err(ReadError { code: 5 });
        }
        let start = offset as usize;
        let n = len.min(self.data.len().saturating_sub(start));
        Ok(self.data[start..start + n].to_vec())
    }
}

fn options() -> ImageOptions {
    ImageOptions {
        output: "out.img".to_string(),
        ..Default::default()
    }
}

#[test]
fn images_a_file_byte_for_byte() {
    let data: Vec<u8> = (0..10_000u32).map(|i| (i % 251) as u8).collect();
    let source = Source::new(data.clone());
    let opts = ImageOptions {
        sparse: false,
        ..options()
    };
    let out = image(&source, &opts, &NoProgress);

    assert_eq!(out.stats.bytes_total, data.len() as u64);
    assert_eq!(out.stats.bytes_copied, data.len() as u64);
    assert!(out.stats.bad_regions.is_empty());
    assert_eq!(out.data, data);
}

#[test]
fn sparse_skips_zero_runs_but_preserves_content() {
    let mut data = vec![0xABu8; 1000];
    data.extend(std::iter::repeat(0u8).take(5 * 1024 * 1024)); // a big hole
    data.extend(std::iter::repeat(0xCDu8).take(1000));
    let source = Source::new(data.clone());
    let opts = ImageOptions {
        sparse: true,
        ..options()
    };
    let out = image(&source, &opts, &NoProgress);

    assert!(out.stats.bytes_sparse > 0, "a zero run should be skipped");
    assert_eq!(out.stats.bytes_total, data.len() as u64);
    // Content is identical regardless of how it was stored.
    assert_eq!(out.data, data);
}

#[test]
fn copies_only_the_requested_range() {
    let data: Vec<u8> = (0..4096u32).map(|i| i as u8).collect();
    let source = Source::new(data.clone());
    let opts = ImageOptions {
        start: 1000,
        end: Some(2000),
        sparse: false,
        ..options()
    };
    let out = image(&source, &opts, &NoProgress);

    assert_eq!(out.stats.bytes_total, 1000);
    assert_eq!(out.data, data[1000..2000]);
}

#[test]
fn bad_sectors_are_zero_filled_and_recorded() {
    // 4096 bytes of 0xEE, with one unreadable 512-byte sector at offset 1024.
    let data = vec![0xEEu8; 4096];
    let source = FaultySource {
        data: data.clone(),
        bad: 1024..1536,
    };
    let opts = ImageOptions {
        sparse: false,
        sector_size: 512,
        ..options()
    };
    let out = image(&source, &opts, &NoProgress);

    assert_eq!(out.stats.bytes_zeroed, 512);
    assert_eq!(out.stats.bad_regions.len(), 1);
    assert_eq!(out.stats.bad_regions[0].offset, 1024);
    assert_eq!(out.stats.bad_regions[0].len, 512);

    let got = out.data;
    assert_eq!(got.len(), 4096);
    // Good sectors copied; the bad sector reads back as a zero-filled hole.
    assert_eq!(&got[..1024], &data[..1024]);
    assert!(got[1024..1536].iter().all(|&b| b == 0));
    assert_eq!(&got[1536..], &data[1536..]);
}

#[test]
fn contiguous_bad_sectors_merge_into_one_region() {
    let source = FaultySource {
        data: vec![0x11u8; 8192],
        // Spans three 512-byte sectors (1024..2560).
        bad: 1100..2400,
    };
    let opts = ImageOptions {
        sparse: false,
        sector_size: 512,
        ..options()
    };
    let stats = image(&source, &opts, &NoProgress).stats;

    assert_eq!(stats.bad_regions.len(), 1, "adjacent bad sectors merge");
    assert_eq!(stats.bad_regions[0].offset, 1024);
    assert_eq!(stats.bad_regions[0].len, 1536); // three sectors
    assert_eq!(stats.bytes_zeroed, 1536);
}

#[test]
fn healthy_sectors_beside_a_bad_one_are_kept() {
    let data = vec![0x33u8; 8192];
    let source = FaultySource {
        data: data.clone(),
        bad: 4000..4001,
    };
    let opts = ImageOptions {
        sparse: false,
        sector_size: 512,
        ..options()
    };
    let out = image(&source, &opts, &NoProgress);
    assert_eq!(out.stats.bad_regions.len(), 1);
    assert_eq!(out.stats.bad_regions[0].offset, 3584);
    assert_eq!(out.stats.bad_regions[0].len, 512);
    assert_eq!(&out.data[..3584], &data[..3584]);
    assert_eq!(&out.data[4096..], &data[4096..]);
}

#[test]
fn zero_runs_are_left_out_by_sub_block() {
    // Sub-blocks of 64 KiB: the first is zero, the second holds one byte, the third is
    // zero, and the last, of 100 bytes, is zero too.
    let mut data = vec![0u8; 3 * 0x1_0000 + 100];
    data[0x1_0000] = 7;
    let out = image(&Source::new(data.clone()), &options(), &NoProgress);
    assert_eq!(out.stats.bytes_sparse, 2 * 0x1_0000 + 100);
    assert_eq!(out.stats.bytes_copied, 0x1_0000);
    assert_eq!(out.data, data);
    let opts = ImageOptions {
        sparse: false,
        ..options()
    };
    let out = image(&Source::new(data.clone()), &opts, &NoProgress);
    assert_eq!((out.stats.bytes_sparse, out.stats.bytes_copied), (0, data.len() as u64));
}

#[test]
fn zero_sectors_beside_a_bad_one_are_left_out() {
    // Read sector by sector: of eight sectors one is bad, one holds a byte, six are zero.
    let mut data = vec![0u8; 4096];
    data[600] = 7;
    let source = FaultySource {
        data: data.clone(),
        bad: 2048..2049,
    };
    let out = image(&source, &options(), &NoProgress);
    assert_eq!(out.stats.bytes_sparse, 6 * 512);
    assert_eq!(out.stats.bytes_copied, 512);
    assert_eq!(out.stats.bytes_zeroed, 512);
    assert_eq!(out.data, data);
}

#[test]
fn an_unreadable_source_is_all_holes() {
    let source = FaultySource {
        data: vec![0x22u8; 2048],
        bad: 0..2048,
    };
    let out = image(&source, &options(), &NoProgress);
    assert_eq!(out.stats.bytes_zeroed, 2048);
    assert_eq!(out.stats.bytes_copied, 0);
    assert_eq!(out.data, vec![0u8; 2048]);
}
