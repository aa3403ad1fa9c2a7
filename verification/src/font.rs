//! Hiding the GPOS and GSUB tables of a TrueType font from parsers that choke
//! on them.

use vstd::prelude::*;

verus! {

/// Byte the first letter of a hidden table's tag is rewritten to.
pub const HIDDEN_TAG_BYTE: u8 = 88;  // 'X'

/// Size of the TrueType offset table that precedes the table directory.
pub const OFFSET_TABLE_LEN: usize = 12;

/// Size of one table-directory record.
pub const TABLE_RECORD_LEN: usize = 16;

/// Number of tables the offset table announces (big-endian `u16` at 4..6).
pub open spec fn table_count(ttf: Seq<u8>) -> int {
    ttf[4] as int * 256 + ttf[5] as int
}

/// Whether the four bytes at `k` spell `GPOS` or `GSUB`.
pub open spec fn is_layout_tag(ttf: Seq<u8>, k: int) -> bool {
    &&& ttf[k] == 71u8  // 'G'
    &&& ((ttf[k + 1] == 80u8 && ttf[k + 2] == 79u8 && ttf[k + 3] == 83u8)  // "POS"
    || (ttf[k + 1] == 83u8 && ttf[k + 2] == 85u8 && ttf[k + 3] == 66u8))  // "SUB"

}

/// Whether byte `k` is the first byte of the tag of a GPOS or GSUB record in
/// the table directory: a record the header announces, lying wholly inside
/// the file.
pub open spec fn is_hidden_tag_start(ttf: Seq<u8>, k: int) -> bool {
    &&& ttf.len() >= OFFSET_TABLE_LEN
    &&& k >= OFFSET_TABLE_LEN
    &&& (k - OFFSET_TABLE_LEN) % (TABLE_RECORD_LEN as int) == 0
    &&& (k - OFFSET_TABLE_LEN) / (TABLE_RECORD_LEN as int) < table_count(ttf)
    &&& k + 4 <= ttf.len()
    &&& is_layout_tag(ttf, k)
}

/// The font with the first byte of every GPOS and GSUB tag rewritten to
/// `'X'`, every other byte unchanged.
pub open spec fn spec_strip_gpos_gsub(ttf: Seq<u8>) -> Seq<u8> {
    Seq::new(
        ttf.len(),
        |k: int|
            if is_hidden_tag_start(ttf, k) {
                HIDDEN_TAG_BYTE
            } else {
                ttf[k]
            },
    )
}

/// Renames the GPOS and GSUB table tags to unknown values so a parser skips
/// them — glyph outlines are unaffected, those tables only carry kerning and
/// substitution rules. A file too short for an offset table comes back as is.
pub fn strip_gpos_gsub(ttf: &[u8]) -> (out: Vec<u8>)
    ensures
        out@ == spec_strip_gpos_gsub(ttf@),
{
    let mut out: Vec<u8> = Vec::new();
    let mut c: usize = 0;
    while c < ttf.len()
        invariant
            c <= ttf@.len(),
            out@ == ttf@.subrange(0, c as int),
        decreases ttf.len() - c,
    {
        out.push(ttf[c]);
        c = c + 1;
    }
    assert(out@ =~= ttf@);
    if out.len() < OFFSET_TABLE_LEN {
        assert(out@ =~= spec_strip_gpos_gsub(ttf@));
        return out;
    }
    let num_tables = (out[4] as usize) * 256 + out[5] as usize;
    let len = out.len();
    let ghost src = ttf@;
    let mut i: usize = 0;
    while i < num_tables
        invariant
            src == ttf@,
            len == src.len(),
            len >= OFFSET_TABLE_LEN,
            num_tables == table_count(src),
            i <= num_tables,
            out@.len() == len,
            forall|k: int|
                0 <= k < len ==> #[trigger] out@[k] == (if k < OFFSET_TABLE_LEN + i
                    * TABLE_RECORD_LEN && is_hidden_tag_start(src, k) {
                    HIDDEN_TAG_BYTE
                } else {
                    src[k]
                }),
        ensures
            forall|k: int|
                0 <= k < len ==> #[trigger] out@[k] == spec_strip_gpos_gsub(src)[k],
        decreases num_tables - i,
    {
        let base = OFFSET_TABLE_LEN + i * TABLE_RECORD_LEN;
        if base + 4 > len {
            proof {
                assert forall|k: int| 0 <= k < len implies #[trigger] out@[k]
                    == spec_strip_gpos_gsub(src)[k] by {
                    if k >= base && is_hidden_tag_start(src, k) {
                        assert(k + 4 <= len);
                    }
                }
            }
            break;
        }
        let hidden = out[base] == 71 && ((out[base + 1] == 80 && out[base + 2] == 79 && out[base
            + 3] == 83) || (out[base + 1] == 83 && out[base + 2] == 85 && out[base + 3] == 66));
        proof {
            assert(out@[base as int] == src[base as int]);
            assert(out@[base + 1] == src[base + 1]);
            assert(out@[base + 2] == src[base + 2]);
            assert(out@[base + 3] == src[base + 3]);
            vstd::arithmetic::div_mod::lemma_fundamental_div_mod_converse(
                base - OFFSET_TABLE_LEN,
                TABLE_RECORD_LEN as int,
                i as int,
                0,
            );
            assert(hidden == is_hidden_tag_start(src, base as int));
            assert forall|k: int| base < k < base + TABLE_RECORD_LEN implies !is_hidden_tag_start(
                src,
                k,
            ) by {
                if k >= OFFSET_TABLE_LEN && (k - OFFSET_TABLE_LEN) % (TABLE_RECORD_LEN as int) == 0 {
                    vstd::arithmetic::div_mod::lemma_fundamental_div_mod(
                        k - OFFSET_TABLE_LEN,
                        TABLE_RECORD_LEN as int,
                    );
                }
            }
        }
        if hidden {
            out.set(base, HIDDEN_TAG_BYTE);
        }
        i = i + 1;
    }
    proof {
        assert forall|k: int| 0 <= k < len implies #[trigger] out@[k] == spec_strip_gpos_gsub(
            src,
        )[k] by {
            if k >= OFFSET_TABLE_LEN + i * TABLE_RECORD_LEN && is_hidden_tag_start(src, k) {
                vstd::arithmetic::div_mod::lemma_fundamental_div_mod(
                    k - OFFSET_TABLE_LEN,
                    TABLE_RECORD_LEN as int,
                );
            }
        }
    }
    assert(out@ =~= spec_strip_gpos_gsub(ttf@));
    out
}

/// Two record starts are a whole record apart.
proof fn lemma_record_starts_apart(k: int, j: int)
    requires
        k >= OFFSET_TABLE_LEN,
        (k - OFFSET_TABLE_LEN) % (TABLE_RECORD_LEN as int) == 0,
        1 <= j < TABLE_RECORD_LEN,
    ensures
        (k + j - OFFSET_TABLE_LEN) % (TABLE_RECORD_LEN as int) != 0,
{
    let r = TABLE_RECORD_LEN as int;
    vstd::arithmetic::div_mod::lemma_fundamental_div_mod(k - OFFSET_TABLE_LEN, r);
    let q = (k - OFFSET_TABLE_LEN) / r;
    vstd::arithmetic::div_mod::lemma_fundamental_div_mod_converse(k + j - OFFSET_TABLE_LEN, r, q, j);
}

/// Stripping is idempotent: a stripped font has no GPOS or GSUB tag left, so
/// stripping it again changes nothing.
pub proof fn lemma_strip_gpos_gsub_is_idempotent(ttf: Seq<u8>)
    ensures
        spec_strip_gpos_gsub(spec_strip_gpos_gsub(ttf)) == spec_strip_gpos_gsub(ttf),
{
    let once = spec_strip_gpos_gsub(ttf);
    assert forall|k: int| 0 <= k < once.len() implies !is_hidden_tag_start(once, k) by {
        if is_hidden_tag_start(once, k) {
            assert(table_count(once) == table_count(ttf));
            if !is_hidden_tag_start(ttf, k) {
                // None of the three following bytes starts a record.
                lemma_record_starts_apart(k, 1);
                lemma_record_starts_apart(k, 2);
                lemma_record_starts_apart(k, 3);
                assert(once[k + 1] == ttf[k + 1]);
                assert(once[k + 2] == ttf[k + 2]);
                assert(once[k + 3] == ttf[k + 3]);
            }
        }
    }
    assert(spec_strip_gpos_gsub(once) =~= once);
}

} // verus!
