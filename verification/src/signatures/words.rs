//! The extensions of the signature table as words.

use vstd::prelude::*;

use super::table::{
    lemma_table_shape, signature_table, table_a, table_b, table_c, table_d, table_e, table_f,
    table_g, table_h,
};
use super::Signature;

verus! {

/// A text of one to eight visible ASCII characters, none of them a space.
pub open spec fn word(s: Seq<char>) -> bool {
    &&& 1 <= s.len() <= 8
    &&& forall|i: int| 0 <= i < s.len() ==> '!' <= #[trigger] s[i] <= '~'
}

/// Whether every extension of a list of signatures is a word.
pub open spec fn worded(sigs: Seq<Signature>) -> bool {
    forall|i: int| 0 <= i < sigs.len() ==> word((#[trigger] sigs[i]).ext@)
}

proof fn lemma_words_a()
    ensures
        worded(table_a()),
{
    reveal_strlit("jpg");
    reveal_strlit("png");
    reveal_strlit("gif");
    reveal_strlit("bmp");
    reveal_strlit("pdf");
    reveal_strlit("zip");
    reveal_strlit("wav");
    reveal_strlit("avi");
    reveal_strlit("webp");
    reveal_strlit("aiff");
    reveal_strlit("aifc");
}

proof fn lemma_words_b()
    ensures
        worded(table_b()),
{
    reveal_strlit("icns");
    reveal_strlit("sqlite");
    reveal_strlit("7z");
    reveal_strlit("cab");
    reveal_strlit("rar");
    reveal_strlit("zst");
    reveal_strlit("lz4");
    reveal_strlit("psd");
    reveal_strlit("wmf");
    reveal_strlit("glb");
}

proof fn lemma_words_c()
    ensures
        worded(table_c()),
{
    reveal_strlit("djvu");
    reveal_strlit("evtx");
    reveal_strlit("rtf");
    reveal_strlit("mp3");
    reveal_strlit("heic");
}

proof fn lemma_words_d()
    ensures
        worded(table_d()),
{
    reveal_strlit("heic");
    reveal_strlit("avif");
    reveal_strlit("cr3");
    reveal_strlit("jxl");
    reveal_strlit("3gp");
    reveal_strlit("mp4");
    reveal_strlit("elf");
    reveal_strlit("exe");
    reveal_strlit("macho");
}

proof fn lemma_words_e()
    ensures
        worded(table_e()),
{
    reveal_strlit("regf");
    reveal_strlit("aac");
    reveal_strlit("dex");
    reveal_strlit("wim");
    reveal_strlit("swf");
    reveal_strlit("icc");
    reveal_strlit("ar");
    reveal_strlit("shp");
    reveal_strlit("blend");
}

proof fn lemma_words_f()
    ensures
        worded(table_f()),
{
    reveal_strlit("nes");
    reveal_strlit("cr2");
    reveal_strlit("tif");
    reveal_strlit("mkv");
    reveal_strlit("ogg");
    reveal_strlit("asf");
    reveal_strlit("wasm");
    reveal_strlit("ico");
    reveal_strlit("cur");
}

proof fn lemma_words_g()
    ensures
        worded(table_g()),
{
    reveal_strlit("ttf");
    reveal_strlit("otf");
    reveal_strlit("woff");
    reveal_strlit("woff2");
    reveal_strlit("emf");
    reveal_strlit("mid");
    reveal_strlit("flv");
    reveal_strlit("pcap");
    reveal_strlit("pcapng");
}

proof fn lemma_words_h()
    ensures
        worded(table_h()),
{
    reveal_strlit("ttc");
    reveal_strlit("jp2");
    reveal_strlit("j2k");
    reveal_strlit("ani");
    reveal_strlit("ole");
    reveal_strlit("pst");
}

/// Every extension of the table is a word.
pub proof fn lemma_table_words()
    ensures
        worded(signature_table()),
{
    lemma_words_a();
    lemma_words_b();
    lemma_words_c();
    lemma_words_d();
    lemma_words_e();
    lemma_words_f();
    lemma_words_g();
    lemma_words_h();
    lemma_table_shape();
    let t = signature_table();
    assert forall|i: int| 0 <= i < t.len() implies word((#[trigger] t[i]).ext@) by {
        if 0 <= i < 12 {
            assert(t[i] == table_a()[i - 0]);
        }
        if 12 <= i < 24 {
            assert(t[i] == table_b()[i - 12]);
        }
        if 24 <= i < 36 {
            assert(t[i] == table_c()[i - 24]);
        }
        if 36 <= i < 48 {
            assert(t[i] == table_d()[i - 36]);
        }
        if 48 <= i < 60 {
            assert(t[i] == table_e()[i - 48]);
        }
        if 60 <= i < 72 {
            assert(t[i] == table_f()[i - 60]);
        }
        if 72 <= i < 84 {
            assert(t[i] == table_g()[i - 72]);
        }
        if 84 <= i < 90 {
            assert(t[i] == table_h()[i - 84]);
        }
    }
}

} // verus!
