//! Copying a failing device: retries and the map file.

use std::cell::Cell;

use filerecovery::image::record::{read_map, write_map};
use filerecovery::image::retry::{retry_bad, retry_pass};
use filerecovery::image::{
    begin, copy_block, finish, merge_regions, range, BadRegion, ImageOptions, ImageState, Patch,
};
use filerecovery::source::{BlockSource, ReadError};

/// A source whose bytes 1024 to 2047 cannot be read at first: the first sector of them
/// recovers once `healed` is set.
struct Failing {
    data: Vec<u8>,
    healed: Cell<bool>,
}

impl BlockSource for Failing {
    fn size(&self) -> u64 {
        self.data.len() as u64
    }

    fn read_at(&self, offset: u64, len: usize) -> Result<Vec<u8>, ReadError> {
        let end = offset + len as u64;
        let bad = if self.healed.get() { 1536..2048 } else { 1024..2048 };
        if offset < bad.end && end > bad.start {
            return Err(ReadError { code: 5 });
        }
        let start = (offset as usize).min(self.data.len());
        let stop = (end as usize).min(self.data.len());
        Ok(self.data[start..stop].to_vec())
    }
}

fn failing() -> Failing {
    Failing {
        data: (0..4096u32).map(|i| (i % 250) as u8 + 1).collect(),
        healed: Cell::new(false),
    }
}

fn options() -> ImageOptions {
    ImageOptions {
        output: "out.img".to_string(),
        ..Default::default()
    }
}

fn apply(image: &mut [u8], patches: &[Patch]) {
    for p in patches {
        let at = p.offset as usize;
        image[at..at + p.data.len()].copy_from_slice(&p.data);
    }
}

fn copied(src: &Failing, image: &mut [u8]) -> ImageState {
    let (start, end) = range(src, &options());
    assert_eq!((start, end), (0, 4096));
    let mut st = begin(src, &options());
    while st.pos < end {
        let (next, patches) = copy_block(src, &options(), st);
        apply(image, &patches);
        st = next;
    }
    st
}

#[test]
fn a_retry_salvages_what_has_healed() {
    let src = failing();
    let mut image = vec![0u8; 4096];
    let st = copied(&src, &mut image);
    assert_eq!(st.bad.len(), 2);
    assert_eq!(st.copied, 3072);
    assert_eq!(st.zeroed, 1024);
    src.healed.set(true);
    let again = retry_bad(&src, &options(), st, 3);
    apply(&mut image, &again.patches);
    assert_eq!(again.bytes, 512);
    assert!(again.passes >= 1 && again.passes <= 3);
    assert_eq!(&image[..1536], &src.data[..1536]);
    assert!(image[1536..2048].iter().all(|b| *b == 0));
    assert_eq!(&image[2048..], &src.data[2048..]);
    let stats = finish(&again.state, 0, 4096, false);
    assert_eq!(stats.bytes_total, 4096);
    assert_eq!(stats.bytes_copied, 3584);
    assert_eq!(stats.bytes_zeroed, 512);
    assert_eq!(stats.bad_regions.len(), 1);
    assert_eq!(stats.bad_regions[0].offset, 1536);
    assert_eq!(stats.bad_regions[0].len, 512);
}

#[test]
fn retries_end_once_a_pass_recovers_nothing() {
    let src = failing();
    let mut image = vec![0u8; 4096];
    let st = copied(&src, &mut image);
    let again = retry_bad(&src, &options(), st, 9);
    assert_eq!((again.passes, again.bytes), (1, 0));
    src.healed.set(true);
    let again = retry_bad(&src, &options(), again.state, 9);
    // One pass gets the healed sector back, the next one nothing.
    assert_eq!((again.passes, again.bytes), (2, 512));
}

#[test]
fn no_retry_changes_nothing() {
    let src = failing();
    let mut image = vec![0u8; 4096];
    let st = copied(&src, &mut image);
    let again = retry_bad(&src, &options(), st, 0);
    assert_eq!(again.passes, 0);
    assert_eq!(again.bytes, 0);
    assert!(again.patches.is_empty());
    // A pass over sectors that still fail keeps them all.
    let (st, patches) = retry_pass(&src, &options(), again.state);
    assert!(patches.is_empty());
    assert_eq!(st.bad.len(), 2);
}

#[test]
fn a_map_reads_back() {
    let src = failing();
    let mut image = vec![0u8; 4096];
    let st = copied(&src, &mut image);
    let text = write_map(&st);
    assert_eq!(
        text,
        "filerecovery image map\n4096\n3072\n1024\n0\n1024\n512\n1536\n512\n"
    );
    let back = read_map(&text, 0, 4096).unwrap();
    assert_eq!(back.pos, 4096);
    assert_eq!((back.copied, back.zeroed, back.sparse), (3072, 1024, 0));
    assert_eq!(back.bad.len(), 2);
    assert_eq!((back.bad[1].offset, back.bad[1].len), (1536, 512));
}

#[test]
fn a_map_of_another_copy_is_refused() {
    assert!(read_map("", 0, 4096).is_none());
    assert!(read_map("something else\n0\n0\n0\n0\n", 0, 4096).is_none());
    assert!(read_map("filerecovery image map\n0\n0\n0\n", 0, 4096).is_none());
    // The bytes do not add up to the position.
    assert!(read_map("filerecovery image map\n512\n0\n0\n0\n", 0, 4096).is_none());
    // The position lies outside the range.
    assert!(read_map("filerecovery image map\n8192\n8192\n0\n0\n", 0, 4096).is_none());
    assert!(read_map("filerecovery image map\n512\n512\n0\n0\n", 0, 4096).is_some());
}

#[test]
fn touching_sectors_are_one_region() {
    let at = |offset: u64, len: u64| BadRegion { offset, len };
    let merged = merge_regions(&vec![at(0, 512), at(512, 512), at(2048, 512)]);
    assert_eq!(merged.len(), 2);
    assert_eq!((merged[0].offset, merged[0].len), (0, 1024));
    assert_eq!((merged[1].offset, merged[1].len), (2048, 512));
}
