//! The optional `\key:value,...*hh\` metadata block that may precede a
//! sentence.
//!
//! The block is ASCII by its grammar; a non-ASCII byte anywhere in it is
//! treated as a format violation.  Its one-byte checksum is the XOR-fold
//! of the key-value section before the `*`.

use vstd::prelude::*;

use crate::checksum::{spec_validate_checksum, validate_checksum};
use crate::errors::Error;
use crate::fields::{
    parse_dec_u32, parse_dec_u64, spec_dec_u32, spec_dec_u64, spec_split, split_bytes, views,
};
use vstd::string::StringSliceAdditionalSpecFns;

verus! {

/// Tag-block metadata attached ahead of a sentence.
#[derive(Debug, PartialEq)]
pub struct TagBlock {
    pub receiver_timestamp: Option<u64>,
    pub destination_station: Option<String>,
    pub line_count: Option<u32>,
    pub relative_time: Option<u32>,
    pub source_station: Option<String>,
    pub text: Option<String>,
    pub checksum: u8,
}

/// The mathematical content of a tag block: each optional field, and the
/// confirmed checksum byte.
pub ghost struct SpecTagBlock {
    pub receiver_timestamp: Option<u64>,
    pub destination_station: Option<Seq<char>>,
    pub line_count: Option<u32>,
    pub relative_time: Option<u32>,
    pub source_station: Option<Seq<char>>,
    pub text: Option<Seq<char>>,
    pub checksum: u8,
}

impl View for TagBlock {
    type V = SpecTagBlock;

    open spec fn view(&self) -> SpecTagBlock {
        SpecTagBlock {
            receiver_timestamp: self.receiver_timestamp,
            destination_station: match self.destination_station {
                Some(s) => Some(s@),
                None => None,
            },
            line_count: self.line_count,
            relative_time: self.relative_time,
            source_station: match self.source_station {
                Some(s) => Some(s@),
                None => None,
            },
            text: match self.text {
                Some(s) => Some(s@),
                None => None,
            },
            checksum: self.checksum,
        }
    }
}

/// `s` with every leading backslash removed.
pub open spec fn spec_trim_leading(s: Seq<u8>) -> Seq<u8>
    decreases s.len(),
{
    if s.len() > 0 && s[0] == 92 {
        spec_trim_leading(s.drop_first())
    } else {
        s
    }
}

/// `s` with every trailing backslash removed.
pub open spec fn spec_trim_trailing(s: Seq<u8>) -> Seq<u8>
    decreases s.len(),
{
    if s.len() > 0 && s.last() == 92 {
        spec_trim_trailing(s.drop_last())
    } else {
        s
    }
}

/// `s` with the backslash delimiters stripped from both ends.
pub open spec fn spec_trim_backslashes(s: Seq<u8>) -> Seq<u8> {
    spec_trim_trailing(spec_trim_leading(s))
}

/// Removes leading and trailing backslashes.
fn trim_backslashes<'a>(s: &'a [u8]) -> (r: &'a [u8])
    ensures
        r@ == spec_trim_backslashes(s@),
{
    let mut start: usize = 0;
    proof {
        assert(s@.skip(0) =~= s@);
    }
    while start < s.len() && s[start] == 92
        invariant
            start <= s@.len(),
            spec_trim_leading(s@) == spec_trim_leading(s@.skip(start as int)),
        decreases s@.len() - start,
    {
        proof {
            assert(s@.skip(start as int).drop_first() =~= s@.skip(start + 1));
        }
        start = start + 1;
    }
    proof {
        assert(spec_trim_leading(s@) == s@.skip(start as int));
    }
    let mut end: usize = s.len();
    while end > start && s[end - 1] == 92
        invariant
            start <= end <= s@.len(),
            spec_trim_leading(s@) == s@.skip(start as int),
            spec_trim_trailing(s@.skip(start as int)) == spec_trim_trailing(
                s@.subrange(start as int, end as int),
            ),
        decreases end,
    {
        proof {
            assert(s@.subrange(start as int, end as int).last() == s@[end - 1]);
            assert(s@.subrange(start as int, end as int).drop_last() =~= s@.subrange(
                start as int,
                end - 1,
            ));
        }
        end = end - 1;
    }
    proof {
        assert(s@.subrange(start as int, s@.len() as int) =~= s@.skip(start as int));
        let t = s@.subrange(start as int, end as int);
        assert(t.len() == 0 || t.last() != 92);
        assert(spec_trim_trailing(t) == t);
    }
    vstd::slice::slice_subrange(s, start, end)
}

/// Whether every byte of `s` is ASCII.
pub open spec fn spec_all_ascii(s: Seq<u8>) -> bool {
    forall|i: int| 0 <= i < s.len() ==> #[trigger] s[i] < 128
}

fn all_ascii(s: &[u8]) -> (r: bool)
    ensures
        r == spec_all_ascii(s@),
{
    let mut i: usize = 0;
    while i < s.len()
        invariant
            i <= s@.len(),
            forall|j: int| 0 <= j < i ==> #[trigger] s@[j] < 128,
        decreases s@.len() - i,
    {
        if s[i] >= 128 {
            return false;
        }
        i = i + 1;
    }
    true
}

/// The characters written by a run of ASCII bytes.
pub open spec fn spec_chars_of(s: Seq<u8>) -> Seq<char> {
    s.map_values(|b: u8| b as char)
}

/// Relies on `String::from_utf8_lossy` of std: a sequence of ASCII bytes
/// decodes to exactly those characters.
#[verifier::external_body]
fn ascii_string(v: &[u8]) -> (r: String)
    requires
        spec_all_ascii(v@),
    ensures
        r@ == spec_chars_of(v@),
{
    String::from_utf8_lossy(v).into_owned()
}

/// The empty tag block a parse starts from, carrying the confirmed
/// checksum.
pub open spec fn spec_tag_block_init(checksum: u8) -> SpecTagBlock {
    SpecTagBlock {
        receiver_timestamp: None,
        destination_station: None,
        line_count: None,
        relative_time: None,
        source_station: None,
        text: None,
        checksum,
    }
}

/// The effect of one `key:value` token on the block under construction.
/// Tokens shorter than three bytes and unrecognized keys are ignored;
/// a numeric value that does not parse clears its field.
pub open spec fn spec_apply_kv(kv: Seq<u8>, tb: SpecTagBlock) -> SpecTagBlock {
    if kv.len() < 3 || kv[1] != 58 {
        tb
    } else {
        let value = kv.skip(2);
        if kv[0] == 99 {
            SpecTagBlock { receiver_timestamp: spec_dec_u64(value), ..tb }
        } else if kv[0] == 100 {
            SpecTagBlock { destination_station: Some(spec_chars_of(value)), ..tb }
        } else if kv[0] == 110 {
            SpecTagBlock { line_count: spec_dec_u32(value), ..tb }
        } else if kv[0] == 114 {
            SpecTagBlock { relative_time: spec_dec_u32(value), ..tb }
        } else if kv[0] == 115 {
            SpecTagBlock { source_station: Some(spec_chars_of(value)), ..tb }
        } else if kv[0] == 116 {
            SpecTagBlock { text: Some(spec_chars_of(value)), ..tb }
        } else {
            tb
        }
    }
}

/// The block after every token of the key-value section, applied in
/// order (a later token overrides an earlier one with the same key).
pub open spec fn spec_apply_kvs(kvs: Seq<Seq<u8>>, tb: SpecTagBlock) -> SpecTagBlock
    decreases kvs.len(),
{
    if kvs.len() == 0 {
        tb
    } else {
        spec_apply_kvs(kvs.drop_first(), spec_apply_kv(kvs[0], tb))
    }
}

/// What parsing a tag block yields, as a function of the line's bytes:
/// the parsed block, or the first violated rule.  The backslash
/// delimiters are stripped; the remainder must be ASCII, hold exactly
/// one `*`, and declare as checksum the XOR-fold of the section before
/// the `*`.
pub open spec fn spec_tag_block(bytes: Seq<u8>) -> Result<SpecTagBlock, Error> {
    let trimmed = spec_trim_backslashes(bytes);
    if !spec_all_ascii(trimmed) {
        Err(Error::TagBlockFormat)
    } else {
        let parts = spec_split(trimmed, 42);
        if parts.len() != 2 {
            Err(Error::TagBlockFormat)
        } else if parts[1].len() != 2 {
            Err(Error::ChecksumFormat)
        } else {
            match spec_validate_checksum(parts[0], parts[1][0], parts[1][1]) {
                Err(e) => Err(e),
                Ok(declared) => Ok(
                    spec_apply_kvs(spec_split(parts[0], 44), spec_tag_block_init(declared)),
                ),
            }
        }
    }
}

/// Parses the key-value section into a block, given the confirmed
/// checksum.
fn apply_kvs(kvs: &Vec<Vec<u8>>, checksum: u8) -> (r: TagBlock)
    requires
        forall|k: int| 0 <= k < kvs@.len() ==> spec_all_ascii(#[trigger] kvs@[k]@),
    ensures
        r@ == spec_apply_kvs(views(kvs@), spec_tag_block_init(checksum)),
{
    let mut tb = TagBlock {
        receiver_timestamp: None,
        destination_station: None,
        line_count: None,
        relative_time: None,
        source_station: None,
        text: None,
        checksum,
    };
    let n = kvs.len();
    let mut k: usize = 0;
    proof {
        assert(views(kvs@).skip(0) =~= views(kvs@));
    }
    while k < n
        invariant
            k <= n,
            n == kvs@.len(),
            forall|j: int| 0 <= j < kvs@.len() ==> spec_all_ascii(#[trigger] kvs@[j]@),
            spec_apply_kvs(views(kvs@), spec_tag_block_init(checksum)) == spec_apply_kvs(
                views(kvs@).skip(k as int),
                tb@,
            ),
        decreases n - k,
    {
        proof {
            assert(views(kvs@).skip(k as int).drop_first() =~= views(kvs@).skip(k + 1));
            assert(views(kvs@).skip(k as int)[0] == kvs@[k as int]@);
        }
        let kv = &kvs[k];
        if kv.len() >= 3 && kv[1] == 58 {
            let value = vstd::slice::slice_subrange(kv.as_slice(), 2, kv.len());
            proof {
                assert(value@ =~= kvs@[k as int]@.skip(2));
                assert(forall|i: int| 0 <= i < value@.len() ==> #[trigger] value@[i] < 128);
            }
            let key = kv[0];
            if key == 99 {
                tb.receiver_timestamp = parse_dec_u64(value);
            } else if key == 100 {
                tb.destination_station = Some(ascii_string(value));
            } else if key == 110 {
                tb.line_count = parse_dec_u32(value);
            } else if key == 114 {
                tb.relative_time = parse_dec_u32(value);
            } else if key == 115 {
                tb.source_station = Some(ascii_string(value));
            } else if key == 116 {
                tb.text = Some(ascii_string(value));
            }
        }
        k = k + 1;
    }
    proof {
        assert(views(kvs@).skip(n as int) =~= Seq::<Seq<u8>>::empty());
    }
    tb
}

/// Parses a tag block from the raw bytes of a line section.
pub fn parse_tag_block_bytes(bytes: &[u8]) -> (r: Result<TagBlock, Error>)
    ensures
        match spec_tag_block(bytes@) {
            Ok(stb) => r matches Ok(tb) && tb@ == stb,
            Err(e) => r matches Err(e2) && e2 == e,
        },
{
    let trimmed = trim_backslashes(bytes);
    if !all_ascii(trimmed) {
        return Err(Error::TagBlockFormat);
    }
    let parts = split_bytes(trimmed, 42);
    if parts.len() != 2 {
        return Err(Error::TagBlockFormat);
    }
    proof {
        assert(views(parts@)[0] == parts@[0]@);
        assert(views(parts@)[1] == parts@[1]@);
    }
    if parts[1].len() != 2 {
        return Err(Error::ChecksumFormat);
    }
    let declared = match validate_checksum(parts[0].as_slice(), parts[1][0], parts[1][1]) {
        Ok(d) => d,
        Err(e) => {
            return Err(e);
        },
    };
    let kvs = split_bytes(parts[0].as_slice(), 44);
    proof {
        lemma_split_fields_ascii(trimmed@, parts@[0]@, kvs@);
    }
    Ok(apply_kvs(&kvs, declared))
}

/// Every field of a split of an all-ASCII section is all-ASCII.
proof fn lemma_split_fields_ascii(whole: Seq<u8>, section: Seq<u8>, kvs: Seq<Vec<u8>>)
    requires
        spec_all_ascii(whole),
        spec_split(whole, 42).len() > 0,
        section == spec_split(whole, 42)[0],
        views(kvs) == spec_split(section, 44),
    ensures
        forall|k: int| 0 <= k < kvs.len() ==> spec_all_ascii(#[trigger] kvs[k]@),
{
    lemma_split_fields_are_subranges(whole, 42);
    lemma_split_fields_are_subranges(section, 44);
    assert forall|k: int| 0 <= k < kvs.len() implies spec_all_ascii(#[trigger] kvs[k]@) by {
        assert(views(kvs)[k] == kvs[k]@);
        assert(spec_in_seq(kvs[k]@, section));
        assert forall|i: int| 0 <= i < kvs[k]@.len() implies #[trigger] kvs[k]@[i] < 128 by {
            assert(section.contains(kvs[k]@[i]));
            let j = choose|j: int| 0 <= j < section.len() && (#[trigger] section[j]) == kvs[k]@[i];
            assert(whole.contains(section[j]));
            let j2 = choose|j2: int| 0 <= j2 < whole.len() && (#[trigger] whole[j2]) == section[j];
            assert(whole[j2] < 128);
        }
    }
}

/// Every byte of `part` occurs somewhere in `whole`.
pub open spec fn spec_in_seq(part: Seq<u8>, whole: Seq<u8>) -> bool {
    forall|i: int| 0 <= i < part.len() ==> whole.contains(#[trigger] part[i])
}

/// Every field of a split draws its bytes from the split string.
proof fn lemma_split_fields_are_subranges(s: Seq<u8>, sep: u8)
    ensures
        forall|k: int|
            0 <= k < spec_split(s, sep).len() ==> spec_in_seq(#[trigger] spec_split(s, sep)[k], s),
    decreases s.len(),
{
    crate::fields::lemma_find_byte(s, sep);
    let f = crate::fields::spec_find_byte(s, sep);
    if !(f < 0 || f >= s.len()) {
        lemma_split_fields_are_subranges(s.skip(f + 1), sep);
        assert forall|k: int|
            0 <= k < spec_split(s, sep).len() implies spec_in_seq(
            #[trigger] spec_split(s, sep)[k],
            s,
        ) by {
            if k == 0 {
                assert forall|i: int| 0 <= i < s.take(f).len() implies s.contains(
                    #[trigger] s.take(f)[i],
                ) by {
                    assert(s.take(f)[i] == s[i]);
                }
            } else {
                let part = spec_split(s.skip(f + 1), sep)[k - 1];
                assert(spec_split(s, sep)[k] == part);
                assert(spec_in_seq(part, s.skip(f + 1)));
                assert forall|i: int| 0 <= i < part.len() implies s.contains(
                    #[trigger] part[i],
                ) by {
                    assert(s.skip(f + 1).contains(part[i]));
                    let j0 = choose|j0: int|
                        0 <= j0 < s.skip(f + 1).len() && (#[trigger] s.skip(f + 1)[j0]) == part[i];
                    assert(part[i] == s[j0 + f + 1]);
                }
            }
        }
    } else {
        assert forall|k: int|
            0 <= k < spec_split(s, sep).len() implies spec_in_seq(
            #[trigger] spec_split(s, sep)[k],
            s,
        ) by {
            assert(spec_split(s, sep)[0] == s);
            assert forall|i: int| 0 <= i < s.len() implies s.contains(#[trigger] s[i]) by {
            }
        }
    }
}

impl TagBlock {
    /// Parses an optional tag block wrapped in backslashes
    /// (`\key:value,...*hh\`), validating its checksum.
    pub fn parse(input: &str) -> (r: Result<Option<TagBlock>, Error>)
        ensures
            match spec_tag_block(input.spec_bytes()) {
                Ok(stb) => r matches Ok(tb) && tb matches Some(t) && t@ == stb,
                Err(e) => r matches Err(e2) && e2 == e,
            },
    {
        match parse_tag_block_bytes(input.as_bytes()) {
            Ok(tb) => Ok(Some(tb)),
            Err(e) => Err(e),
        }
    }
}

} // verus!
