//! NMEA sentence framing, checksum validation, and multi-fragment
//! reassembly: the stateful front half of the decoding engine.

use vstd::prelude::*;

use crate::checksum::{spec_validate_checksum, validate_checksum};
use crate::errors::Error;
use crate::fields::{
    bytes_eq, find_byte, spec_find_byte, spec_split, split_bytes, views,
};
use crate::messages::{spec_dispatch, AisMessage};
use crate::sixbit::{expand_payload, spec_expand};
use crate::tag_block::{parse_tag_block_bytes, spec_tag_block, SpecTagBlock, TagBlock};

verus! {

/// How many never-completed multi-part sequences the reassembly buffer
/// holds before the oldest is evicted; a bound, so that lossy or
/// adversarial input cannot grow the buffer without limit.
pub const MAX_PENDING: usize = 8;

/// One framed NMEA AIS sentence, before reassembly.
pub struct Sentence {
    /// Whether the formatter was `AIVDO` (own ship) rather than `AIVDM`.
    pub vdo: bool,
    /// Declared number of fragments of the logical message, 1..=9.
    pub total: u8,
    /// This fragment's 1-based index, 1..=total.
    pub index: u8,
    /// Sequential message id shared by the fragments of one message.
    pub seq_id: Option<u8>,
    /// Radio channel designator, when present.
    pub channel: Option<u8>,
    /// The armored payload text of this fragment.
    pub payload: Vec<u8>,
    /// Padding bits in the last armored character, 0..=5.
    pub fill: u8,
}

/// The mathematical content of a framed sentence.
pub ghost struct SpecSentence {
    pub vdo: bool,
    pub total: u8,
    pub index: u8,
    pub seq_id: Option<u8>,
    pub channel: Option<u8>,
    pub payload: Seq<u8>,
    pub fill: u8,
}

impl View for Sentence {
    type V = SpecSentence;

    open spec fn view(&self) -> SpecSentence {
        SpecSentence {
            vdo: self.vdo,
            total: self.total,
            index: self.index,
            seq_id: self.seq_id,
            channel: self.channel,
            payload: self.payload@,
            fill: self.fill,
        }
    }
}

/// The bytes of the formatter `AIVDM`.
pub open spec fn spec_aivdm() -> Seq<u8> {
    seq![65u8, 73u8, 86u8, 68u8, 77u8]
}

/// The bytes of the formatter `AIVDO`.
pub open spec fn spec_aivdo() -> Seq<u8> {
    seq![65u8, 73u8, 86u8, 68u8, 79u8]
}

/// One single decimal digit as a number, or `None`.
pub open spec fn spec_single_digit(s: Seq<u8>) -> Option<u8> {
    if s.len() == 1 && 48 <= s[0] <= 57 {
        Some((s[0] - 48) as u8)
    } else {
        None
    }
}

/// What framing one line yields, as a function of its bytes: the parsed
/// sentence, or the first violated rule.  The line must start with `!`
/// or `$`, hold exactly one `*` after it followed by a two-hex-digit
/// checksum over everything between the sentinel and the `*`, and carry
/// the seven comma-separated fields of an AIS sentence.  In strict mode
/// a checksum mismatch is fatal; in lenient mode it is ignored.
pub open spec fn spec_frame(line: Seq<u8>, strict: bool) -> Result<SpecSentence, Error> {
    if line.len() == 0 || (line[0] != 33 && line[0] != 36) {
        Err(Error::SentenceFormat)
    } else {
        let star = spec_split(line.skip(1), 42);
        if star.len() != 2 {
            Err(Error::SentenceFormat)
        } else if star[1].len() != 2 {
            Err(Error::ChecksumFormat)
        } else {
            let body = star[0];
            let checked = spec_validate_checksum(body, star[1][0], star[1][1]);
            if checked matches Err(Error::ChecksumFormat) {
                Err(Error::ChecksumFormat)
            } else if strict && checked is Err {
                checked_err(checked)
            } else {
                spec_frame_fields(body)
            }
        }
    }
}

/// The error of a failed checksum validation, passed through.
pub open spec fn checked_err(checked: Result<u8, Error>) -> Result<SpecSentence, Error> {
    match checked {
        Err(e) => Err(e),
        Ok(_) => Err(Error::SentenceFormat),
    }
}

/// Frames the comma-separated field section of a sentence body.
pub open spec fn spec_frame_fields(body: Seq<u8>) -> Result<SpecSentence, Error> {
    let fields = spec_split(body, 44);
    if fields.len() != 7 {
        Err(Error::SentenceFormat)
    } else if fields[0] != spec_aivdm() && fields[0] != spec_aivdo() {
        Err(Error::UnsupportedSentenceType)
    } else {
        let total = spec_single_digit(fields[1]);
        let index = spec_single_digit(fields[2]);
        if total is None || index is None {
            Err(Error::SentenceFormat)
        } else if !(1 <= index.unwrap() && index.unwrap() <= total.unwrap()) {
            Err(Error::FragmentRange)
        } else if fields[3].len() > 1 || (fields[3].len() == 1 && spec_single_digit(
            fields[3],
        ) is None) {
            Err(Error::SentenceFormat)
        } else if fields[4].len() > 1 {
            Err(Error::SentenceFormat)
        } else if fields[6].len() != 1 || spec_single_digit(fields[6]) is None
            || spec_single_digit(fields[6]).unwrap() > 5 {
            Err(Error::SentenceFormat)
        } else {
            Ok(
                SpecSentence {
                    vdo: fields[0] == spec_aivdo(),
                    total: total.unwrap(),
                    index: index.unwrap(),
                    seq_id: if fields[3].len() == 0 {
                        None
                    } else {
                        spec_single_digit(fields[3])
                    },
                    channel: if fields[4].len() == 0 {
                        None
                    } else {
                        Some(fields[4][0])
                    },
                    payload: fields[5],
                    fill: spec_single_digit(fields[6]).unwrap(),
                },
            )
        }
    }
}

/// Reads a field that must be a single decimal digit.
fn single_digit(s: &[u8]) -> (r: Option<u8>)
    ensures
        r == spec_single_digit(s@),
{
    if s.len() == 1 && 48 <= s[0] && s[0] <= 57 {
        Some(s[0] - 48)
    } else {
        None
    }
}

/// Frames one line as an NMEA AIS sentence, validating its checksum.
pub fn frame_sentence(line: &[u8], strict: bool) -> (r: Result<Sentence, Error>)
    ensures
        match spec_frame(line@, strict) {
            Ok(ss) => r matches Ok(s) && s@ == ss,
            Err(e) => r matches Err(e2) && e2 == e,
        },
{
    if line.len() == 0 || (line[0] != 33 && line[0] != 36) {
        return Err(Error::SentenceFormat);
    }
    let rest = vstd::slice::slice_subrange(line, 1, line.len());
    proof {
        assert(rest@ =~= line@.skip(1));
    }
    let star = split_bytes(rest, 42);
    if star.len() != 2 {
        return Err(Error::SentenceFormat);
    }
    proof {
        assert(views(star@)[0] == star@[0]@);
        assert(views(star@)[1] == star@[1]@);
    }
    if star[1].len() != 2 {
        return Err(Error::ChecksumFormat);
    }
    let body = star[0].as_slice();
    match validate_checksum(body, star[1][0], star[1][1]) {
        Err(Error::ChecksumFormat) => {
            return Err(Error::ChecksumFormat);
        },
        Err(e) => {
            if strict {
                return Err(e);
            }
        },
        Ok(_) => {},
    }
    let fields = split_bytes(body, 44);
    if fields.len() != 7 {
        return Err(Error::SentenceFormat);
    }
    proof {
        assert(forall|i: int| 0 <= i < fields@.len() ==> views(fields@)[i] == #[trigger] fields@[i]@);
    }
    let aivdm: [u8; 5] = [65, 73, 86, 68, 77];
    let aivdo: [u8; 5] = [65, 73, 86, 68, 79];
    proof {
        assert(aivdm@ =~= spec_aivdm());
        assert(aivdo@ =~= spec_aivdo());
    }
    let is_vdm = bytes_eq(fields[0].as_slice(), aivdm.as_slice());
    let is_vdo = bytes_eq(fields[0].as_slice(), aivdo.as_slice());
    if !is_vdm && !is_vdo {
        return Err(Error::UnsupportedSentenceType);
    }
    let total = single_digit(fields[1].as_slice());
    let index = single_digit(fields[2].as_slice());
    let (total, index) = match (total, index) {
        (Some(t), Some(i)) => (t, i),
        _ => {
            return Err(Error::SentenceFormat);
        },
    };
    if !(1 <= index && index <= total) {
        return Err(Error::FragmentRange);
    }
    let seq_id = if fields[3].len() == 0 {
        None
    } else {
        match single_digit(fields[3].as_slice()) {
            Some(d) => Some(d),
            None => {
                return Err(Error::SentenceFormat);
            },
        }
    };
    if fields[4].len() > 1 {
        return Err(Error::SentenceFormat);
    }
    let channel = if fields[4].len() == 0 {
        None
    } else {
        Some(fields[4][0])
    };
    let fill = match single_digit(fields[6].as_slice()) {
        Some(d) => if d <= 5 {
            d
        } else {
            return Err(Error::SentenceFormat);
        },
        None => {
            return Err(Error::SentenceFormat);
        },
    };
    let payload = vstd::slice::slice_to_vec(fields[5].as_slice());
    Ok(Sentence { vdo: is_vdo, total, index, seq_id, channel, payload, fill })
}

/// Reassembly state for one in-flight multi-part message.
struct FragmentEntry {
    seq_id: Option<u8>,
    channel: Option<u8>,
    total: u8,
    slots: Vec<Option<Vec<u8>>>,
}

/// The mathematical content of one reassembly entry.
pub ghost struct SpecEntry {
    pub seq_id: Option<u8>,
    pub channel: Option<u8>,
    pub total: u8,
    pub slots: Seq<Option<Seq<u8>>>,
}

/// The views of a sequence of payload slots.
pub open spec fn slot_views(s: Seq<Option<Vec<u8>>>) -> Seq<Option<Seq<u8>>> {
    Seq::new(
        s.len(),
        |i: int|
            match s[i] {
                Some(v) => Some(v@),
                None => None,
            },
    )
}

impl View for FragmentEntry {
    type V = SpecEntry;

    closed spec fn view(&self) -> SpecEntry {
        SpecEntry {
            seq_id: self.seq_id,
            channel: self.channel,
            total: self.total,
            slots: slot_views(self.slots@),
        }
    }
}

/// A well-formed entry: one slot per declared fragment, and a total
/// that only a multi-part sequence can declare.
pub open spec fn entry_wf(e: SpecEntry) -> bool {
    &&& e.slots.len() == e.total
    &&& 2 <= e.total <= 9
}

/// Whether an entry belongs to the reassembly key (sequential id,
/// channel).
pub open spec fn key_matches(e: SpecEntry, seq_id: Option<u8>, channel: Option<u8>) -> bool {
    e.seq_id == seq_id && e.channel == channel
}

/// The first entry with the given key, or -1.
pub open spec fn spec_find_entry(
    entries: Seq<SpecEntry>,
    seq_id: Option<u8>,
    channel: Option<u8>,
) -> int
    decreases entries.len(),
{
    if entries.len() == 0 {
        -1
    } else if key_matches(entries[0], seq_id, channel) {
        0
    } else {
        let r = spec_find_entry(entries.drop_first(), seq_id, channel);
        if r < 0 {
            -1
        } else {
            r + 1
        }
    }
}

pub proof fn lemma_find_entry(entries: Seq<SpecEntry>, seq_id: Option<u8>, channel: Option<u8>)
    ensures
        spec_find_entry(entries, seq_id, channel) == -1 ==> forall|i: int|
            0 <= i < entries.len() ==> !key_matches(#[trigger] entries[i], seq_id, channel),
        spec_find_entry(entries, seq_id, channel) >= 0 ==> {
            &&& spec_find_entry(entries, seq_id, channel) < entries.len()
            &&& key_matches(entries[spec_find_entry(entries, seq_id, channel)], seq_id, channel)
            &&& forall|i: int|
                0 <= i < spec_find_entry(entries, seq_id, channel) ==> !key_matches(
                    #[trigger] entries[i],
                    seq_id,
                    channel,
                )
        },
    decreases entries.len(),
{
    if entries.len() > 0 && !key_matches(entries[0], seq_id, channel) {
        lemma_find_entry(entries.drop_first(), seq_id, channel);
        assert(forall|i: int| 1 <= i < entries.len() ==> entries[i] == entries.drop_first()[i - 1]);
    }
}

/// The payload slot of an absent fragment contributes nothing.
pub open spec fn unwrap_or_empty(o: Option<Seq<u8>>) -> Seq<u8> {
    match o {
        Some(s) => s,
        None => Seq::empty(),
    }
}

/// The concatenation of the first `k` payload slots, in index order.
pub open spec fn spec_concat_upto(slots: Seq<Option<Seq<u8>>>, k: int) -> Seq<u8>
    decreases k,
{
    if k <= 0 {
        Seq::empty()
    } else {
        spec_concat_upto(slots, k - 1) + unwrap_or_empty(slots[k - 1])
    }
}

/// Whether slots 0..k are all present.
pub open spec fn slots_filled_upto(slots: Seq<Option<Seq<u8>>>, k: int) -> bool {
    forall|j: int| 0 <= j < k ==> #[trigger] slots[j] is Some
}

/// A sequence of `n` empty payload slots.
pub open spec fn spec_empty_slots(n: int) -> Seq<Option<Seq<u8>>> {
    Seq::new(n as nat, |i: int| None)
}

/// One transition of the fragment reassembler: what feeding the framed
/// sentence `ss` to a buffer in state `entries` does to the buffer, and
/// what it emits — `Ok(Some((payload, fill)))` for a completed message,
/// `Ok(None)` while fragments are pending, or a reassembly error, which
/// discards the sequence it concerns.
///
/// A single-fragment sentence bypasses the buffer.  A fragment is
/// slotted by its declared index; a duplicate index, a change of the
/// declared total, or a final fragment arriving while earlier indices
/// are missing invalidates the buffered sequence.  When the final
/// fragment arrives and every earlier slot is filled, the payloads are
/// concatenated in index order and the final fragment's fill-bit count
/// is adopted.  A first fragment of a new sequence evicts the oldest
/// buffered sequence if the buffer is full.
pub open spec fn spec_step(entries: Seq<SpecEntry>, ss: SpecSentence) -> (
    Seq<SpecEntry>,
    Result<Option<(Seq<u8>, u8)>, Error>,
) {
    if ss.total == 1 {
        (entries, Ok(Some((ss.payload, ss.fill))))
    } else {
        let idx = spec_find_entry(entries, ss.seq_id, ss.channel);
        if idx < 0 {
            if ss.index == ss.total {
                (entries, Err(Error::Reassembly))
            } else {
                let e = SpecEntry {
                    seq_id: ss.seq_id,
                    channel: ss.channel,
                    total: ss.total,
                    slots: spec_empty_slots(ss.total as int).update(
                        ss.index - 1,
                        Some(ss.payload),
                    ),
                };
                let evicted = if entries.len() >= MAX_PENDING {
                    entries.drop_first()
                } else {
                    entries
                };
                (evicted.push(e), Ok(None))
            }
        } else {
            let e = entries[idx];
            if e.total != ss.total {
                (entries.remove(idx), Err(Error::Reassembly))
            } else if e.slots[ss.index - 1] is Some {
                (entries.remove(idx), Err(Error::Reassembly))
            } else if ss.index == ss.total {
                if slots_filled_upto(e.slots, ss.total - 1) {
                    (
                        entries.remove(idx),
                        Ok(Some((spec_concat_upto(e.slots, ss.total - 1) + ss.payload, ss.fill))),
                    )
                } else {
                    (entries.remove(idx), Err(Error::Reassembly))
                }
            } else {
                let e2 = SpecEntry {
                    slots: e.slots.update(ss.index - 1, Some(ss.payload)),
                    ..e
                };
                (entries.update(idx, e2), Ok(None))
            }
        }
    }
}

/// A completed sentence handed back to the caller.
#[derive(Debug)]
pub struct AisSentence {
    /// The decoded message, or `None` for a recognized message type this
    /// library does not decode.
    pub message: Option<AisMessage>,
    /// The tag block that prefixed the line, if any.
    pub tag_block: Option<TagBlock>,
    /// The radio channel of the completing fragment.
    pub channel: Option<u8>,
    /// The fully assembled armored payload.
    pub payload: Vec<u8>,
    /// Fill bits of the final fragment.
    pub fill_bits: u8,
}

/// The mathematical content of a completed sentence.
pub ghost struct SpecAisSentence {
    pub message: Option<AisMessage>,
    pub tag_block: Option<SpecTagBlock>,
    pub channel: Option<u8>,
    pub payload: Seq<u8>,
    pub fill_bits: u8,
}

impl View for AisSentence {
    type V = SpecAisSentence;

    open spec fn view(&self) -> SpecAisSentence {
        SpecAisSentence {
            message: self.message,
            tag_block: match self.tag_block {
                Some(ref tb) => Some(tb@),
                None => None,
            },
            channel: self.channel,
            payload: self.payload@,
            fill_bits: self.fill_bits,
        }
    }
}

/// The outcome of feeding one line to the parser: a finished message,
/// or notice that more fragments are expected.
#[derive(Debug)]
pub enum AisFragments {
    /// More fragments of the logical message are still expected.
    Incomplete,
    /// The line completed a message (or was single-fragment).
    Complete(AisSentence),
}

impl View for AisFragments {
    type V = Option<SpecAisSentence>;

    open spec fn view(&self) -> Option<SpecAisSentence> {
        match self {
            AisFragments::Incomplete => None,
            AisFragments::Complete(s) => Some(s@),
        }
    }
}

/// What pre-processing the optional tag block of a line yields: the
/// parsed block (if the line starts with a backslash) and the sentence
/// text that follows it.
pub open spec fn spec_strip_tag(line: Seq<u8>) -> Result<(Option<SpecTagBlock>, Seq<u8>), Error> {
    if line.len() > 0 && line[0] == 92 {
        let rest = line.skip(1);
        let i = spec_find_byte(rest, 92);
        if i < 0 {
            Err(Error::TagBlockFormat)
        } else {
            match spec_tag_block(rest.take(i)) {
                Err(e) => Err(e),
                Ok(tb) => Ok((Some(tb), rest.skip(i + 1))),
            }
        }
    } else {
        Ok((None, line))
    }
}

/// What feeding one raw line to a parser in state `entries` yields: the
/// new reassembly state, and either the outcome (`None` while
/// fragments are pending, or the completed sentence with its decoded
/// message) or the first violated rule of any stage.
pub open spec fn spec_parse(entries: Seq<SpecEntry>, line: Seq<u8>, strict: bool) -> (
    Seq<SpecEntry>,
    Result<Option<SpecAisSentence>, Error>,
) {
    match spec_strip_tag(line) {
        Err(e) => (entries, Err(e)),
        Ok((tb, sline)) => match spec_frame(sline, strict) {
            Err(e) => (entries, Err(e)),
            Ok(ss) => {
                let (es, out) = spec_step(entries, ss);
                match out {
                    Err(e) => (es, Err(e)),
                    Ok(None) => (es, Ok(None)),
                    Ok(Some((payload, fill))) => match spec_expand(payload, fill) {
                        Err(e) => (es, Err(e)),
                        Ok(bits) => match spec_dispatch(bits) {
                            Err(e) => (es, Err(e)),
                            Ok(msg) => (
                                es,
                                Ok(
                                    Some(
                                        SpecAisSentence {
                                            message: msg,
                                            tag_block: tb,
                                            channel: ss.channel,
                                            payload,
                                            fill_bits: fill,
                                        },
                                    ),
                                ),
                            ),
                        },
                    },
                }
            },
        },
    }
}

/// The sentence-to-message parser: framing plus one owned reassembly
/// buffer.  Each independently decoded stream needs its own instance.
pub struct AisParser {
    entries: Vec<FragmentEntry>,
}

impl View for AisParser {
    type V = Seq<SpecEntry>;

    closed spec fn view(&self) -> Seq<SpecEntry> {
        self.entries@.map_values(|e: FragmentEntry| e@)
    }
}

impl AisParser {
    /// Every buffered entry is well formed and the buffer respects its
    /// bound.
    pub open spec fn wf(&self) -> bool {
        &&& forall|i: int| 0 <= i < self@.len() ==> entry_wf(#[trigger] self@[i])
        &&& self@.len() <= MAX_PENDING
    }

    /// A parser with an empty reassembly buffer.
    pub fn new() -> (r: AisParser)
        ensures
            r.wf(),
            r@ == Seq::<SpecEntry>::empty(),
    {
        let r = AisParser { entries: Vec::new() };
        proof {
            assert(r@ =~= Seq::<SpecEntry>::empty());
        }
        r
    }

    /// Feeds one framed multi-part-capable sentence to the reassembly
    /// buffer.
    #[verifier::loop_isolation(false)]
    fn handle_fragment(&mut self, s: Sentence) -> (r: Result<Option<(Vec<u8>, u8)>, Error>)
        requires
            old(self).wf(),
            1 <= s.total <= 9,
            1 <= s.index <= s.total,
        ensures
            final(self).wf(),
            ({
                let (es, out) = spec_step(old(self)@, s@);
                &&& final(self)@ == es
                &&& match out {
                    Ok(None) => r matches Ok(None),
                    Ok(Some((p, f))) => r matches Ok(Some(pf)) && pf.0@ == p && pf.1 == f,
                    Err(e) => r matches Err(e2) && e2 == e,
                }
            }),
    {
        if s.total == 1 {
            return Ok(Some((s.payload, s.fill)));
        }
        let found = find_entry_index(&self.entries, &s.seq_id, &s.channel);
        let ghost pre = self@;
        match found {
            None => {
                if s.index == s.total {
                    return Err(Error::Reassembly);
                }
                let mut slots: Vec<Option<Vec<u8>>> = Vec::new();
                let mut k: usize = 0;
                while k < s.total as usize
                    invariant
                        k <= s.total as usize,
                        slot_views(slots@) == spec_empty_slots(k as int),
                    decreases s.total as usize - k,
                {
                    let ghost prev = slots@;
                    slots.push(None);
                    proof {
                        assert forall|t: int| 0 <= t < slots@.len() implies slot_views(
                            slots@,
                        )[t] == spec_empty_slots(k + 1)[t] by {
                            if t < k {
                                assert(slot_views(prev)[t] == spec_empty_slots(k as int)[t]);
                                assert(slots@[t] == prev[t]);
                            } else {
                                assert(slots@[t] is None);
                            }
                        }
                        assert(slot_views(slots@) =~= spec_empty_slots(k + 1));
                    }
                    k = k + 1;
                }
                slots.set(s.index as usize - 1, Some(s.payload));
                proof {
                    assert(slot_views(slots@) =~~= spec_empty_slots(s.total as int).update(
                        s.index - 1,
                        Some(s.payload@),
                    ));
                }
                let entry = FragmentEntry {
                    seq_id: s.seq_id,
                    channel: s.channel,
                    total: s.total,
                    slots,
                };
                if self.entries.len() >= MAX_PENDING {
                    self.entries.remove(0);
                    proof {
                        assert(self@ =~= pre.drop_first());
                    }
                }
                let ghost evicted = self@;
                self.entries.push(entry);
                proof {
                    assert(self@ =~= evicted.push(entry@));
                    assert(entry_wf(entry@));
                    assert forall|t: int| 0 <= t < self@.len() implies entry_wf(
                        #[trigger] self@[t],
                    ) by {
                        if t < self@.len() - 1 {
                            if evicted == pre {
                                assert(self@[t] == pre[t]);
                            } else {
                                assert(self@[t] == pre[t + 1]);
                            }
                        } else {
                            assert(self@[t] == entry@);
                        }
                    }
                }
                Ok(None)
            },
            Some(idx) => {
                let mut e = self.entries.remove(idx);
                proof {
                    assert(self@ =~= pre.remove(idx as int));
                    assert(e@ == pre[idx as int]);
                    assert(entry_wf(pre[idx as int]));
                    lemma_wf_remove(pre, idx as int);
                }
                if e.total != s.total {
                    return Err(Error::Reassembly);
                }
                proof {
                    assert(e@.slots[s.index - 1] == slot_views(e.slots@)[s.index - 1]);
                }
                let dup = match &e.slots[s.index as usize - 1] {
                    Some(_) => true,
                    None => false,
                };
                if dup {
                    return Err(Error::Reassembly);
                }
                if s.index == s.total {
                    let mut out: Vec<u8> = Vec::new();
                    let upto = s.total as usize - 1;
                    let mut j: usize = 0;
                    while j < upto
                        invariant
                            j <= upto,
                            upto == e@.total - 1,
                            e@.slots.len() == e@.total,
                            out@ == spec_concat_upto(e@.slots, j as int),
                            slots_filled_upto(e@.slots, j as int),
                        decreases upto - j,
                    {
                        proof {
                            assert(e@.slots[j as int] == slot_views(e.slots@)[j as int]);
                        }
                        match &e.slots[j] {
                            Some(p) => {
                                let mut piece = vstd::slice::slice_to_vec(p.as_slice());
                                out.append(&mut piece);
                                proof {
                                    assert(out@ == spec_concat_upto(e@.slots, j + 1));
                                    assert(slots_filled_upto(e@.slots, j + 1));
                                }
                            },
                            None => {
                                proof {
                                    assert(e@.slots[j as int] is None);
                                    assert(!slots_filled_upto(e@.slots, s.total - 1));
                                }
                                return Err(Error::Reassembly);
                            },
                        }
                        j = j + 1;
                    }
                    let mut tail = s.payload;
                    out.append(&mut tail);
                    Ok(Some((out, s.fill)))
                } else {
                    e.slots.set(s.index as usize - 1, Some(s.payload));
                    let ghost mid = self@;
                    self.entries.insert(idx, e);
                    proof {
                        let e2 = SpecEntry {
                            slots: pre[idx as int].slots.update(s.index - 1, Some(s.payload@)),
                            ..pre[idx as int]
                        };
                        assert(slot_views(e.slots@) =~~= e2.slots);
                        assert(self@ =~= mid.insert(idx as int, e@));
                        assert(self@ =~= pre.update(idx as int, e2));
                        assert forall|t: int| 0 <= t < self@.len() implies entry_wf(
                            #[trigger] self@[t],
                        ) by {
                            if t == idx {
                                assert(self@[t] == e2);
                            } else {
                                assert(self@[t] == pre[t]);
                            }
                        }
                    }
                    Ok(None)
                }
            },
        }
    }

    /// Parses one raw input line: optional tag block, sentence framing
    /// with checksum validation (fatal only in `strict` mode), fragment
    /// reassembly, and — once a message is complete — payload expansion
    /// and message decoding.
    pub fn parse(&mut self, line: &[u8], strict: bool) -> (r: Result<AisFragments, Error>)
        requires
            old(self).wf(),
        ensures
            final(self).wf(),
            ({
                let (es, out) = spec_parse(old(self)@, line@, strict);
                &&& final(self)@ == es
                &&& match out {
                    Ok(o) => r matches Ok(f) && f@ == o,
                    Err(e) => r matches Err(e2) && e2 == e,
                }
            }),
    {
        let (tag_block, sentence_part) = if line.len() > 0 && line[0] == 92 {
            let rest = vstd::slice::slice_subrange(line, 1, line.len());
            proof {
                assert(rest@ =~= line@.skip(1));
            }
            match find_byte(rest, 92) {
                None => {
                    return Err(Error::TagBlockFormat);
                },
                Some(i) => {
                    proof {
                        crate::fields::lemma_find_byte(rest@, 92);
                    }
                    let block = vstd::slice::slice_subrange(rest, 0, i);
                    proof {
                        assert(block@ =~= rest@.take(i as int));
                    }
                    match parse_tag_block_bytes(block) {
                        Err(e) => {
                            return Err(e);
                        },
                        Ok(tb) => {
                            let after = vstd::slice::slice_subrange(rest, i + 1, rest.len());
                            proof {
                                assert(after@ =~= rest@.skip(i + 1));
                            }
                            (Some(tb), after)
                        },
                    }
                },
            }
        } else {
            (None, line)
        };
        let sentence = match frame_sentence(sentence_part, strict) {
            Err(e) => {
                return Err(e);
            },
            Ok(s) => s,
        };
        let ghost ss = sentence@;
        let channel = sentence.channel;
        match self.handle_fragment(sentence) {
            Err(e) => Err(e),
            Ok(None) => Ok(AisFragments::Incomplete),
            Ok(Some((payload, fill))) => {
                let bits = match expand_payload(payload.as_slice(), fill) {
                    Err(e) => {
                        return Err(e);
                    },
                    Ok(b) => b,
                };
                let message = match crate::messages::dispatch_message(&bits) {
                    Err(e) => {
                        return Err(e);
                    },
                    Ok(m) => m,
                };
                Ok(
                    AisFragments::Complete(
                        AisSentence { message, tag_block, channel, payload, fill_bits: fill },
                    ),
                )
            },
        }
    }
}

/// Finds the buffered entry with the given reassembly key.
fn find_entry_index(
    entries: &Vec<FragmentEntry>,
    seq_id: &Option<u8>,
    channel: &Option<u8>,
) -> (r: Option<usize>)
    ensures
        ({
            let es = entries@.map_values(|e: FragmentEntry| e@);
            match r {
                Some(i) => spec_find_entry(es, *seq_id, *channel) == i && i < es.len(),
                None => spec_find_entry(es, *seq_id, *channel) == -1,
            }
        }),
{
    proof {
        lemma_find_entry(entries@.map_values(|e: FragmentEntry| e@), *seq_id, *channel);
    }
    let ghost es = entries@.map_values(|e: FragmentEntry| e@);
    let mut i: usize = 0;
    while i < entries.len()
        invariant
            i <= entries@.len(),
            es == entries@.map_values(|e: FragmentEntry| e@),
            forall|j: int| 0 <= j < i ==> !key_matches(#[trigger] es[j], *seq_id, *channel),
        decreases entries@.len() - i,
    {
        let e = &entries[i];
        if opt_u8_eq(&e.seq_id, &seq_id) && opt_u8_eq(&e.channel, &channel) {
            proof {
                lemma_find_entry(es, *seq_id, *channel);
                assert(key_matches(es[i as int], *seq_id, *channel));
            }
            return Some(i);
        }
        i = i + 1;
    }
    proof {
        lemma_find_entry(es, *seq_id, *channel);
        if spec_find_entry(es, *seq_id, *channel) >= 0 {
            assert(key_matches(es[spec_find_entry(es, *seq_id, *channel)], *seq_id, *channel));
        }
    }
    None
}

/// Entries stay well formed when one is removed.
proof fn lemma_wf_remove(pre: Seq<SpecEntry>, idx: int)
    requires
        forall|i: int| 0 <= i < pre.len() ==> entry_wf(#[trigger] pre[i]),
        0 <= idx < pre.len(),
    ensures
        forall|i: int| 0 <= i < pre.remove(idx).len() ==> entry_wf(#[trigger] pre.remove(idx)[i]),
{
    assert forall|i: int| 0 <= i < pre.remove(idx).len() implies entry_wf(
        #[trigger] pre.remove(idx)[i],
    ) by {
        if i < idx {
            assert(pre.remove(idx)[i] == pre[i]);
        } else {
            assert(pre.remove(idx)[i] == pre[i + 1]);
        }
    }
}

/// Compares two optional channel or sequence-id bytes.
fn opt_u8_eq(a: &Option<u8>, b: &Option<u8>) -> (r: bool)
    ensures
        r == (*a == *b),
{
    match (a, b) {
        (Some(x), Some(y)) => x == y,
        (None, None) => true,
        _ => false,
    }
}

/// Fragment order and duplicates: for a two-part sequence fed to an
/// empty buffer in index order, the first fragment is buffered as
/// incomplete and the second completes the message with the payloads
/// concatenated in index order and the final fragment's fill bits;
/// resubmitting the first fragment's index instead is rejected as a
/// reassembly error, never silently overwritten, and the sequence is
/// discarded.
pub proof fn lemma_fragment_order_and_duplicates(s1: SpecSentence, s2: SpecSentence)
    requires
        s1.total == 2,
        s1.index == 1,
        s2.total == 2,
        s2.index == 2,
        s1.seq_id == s2.seq_id,
        s1.channel == s2.channel,
    ensures
        ({
            let (es1, out1) = spec_step(Seq::<SpecEntry>::empty(), s1);
            &&& out1 matches Ok(None)
            &&& ({
                let (es2, out2) = spec_step(es1, s2);
                &&& out2 matches Ok(Some(pf)) && pf.0 == s1.payload + s2.payload && pf.1
                    == s2.fill
                &&& es2 == Seq::<SpecEntry>::empty()
            })
            &&& ({
                let (es3, out3) = spec_step(es1, s1);
                &&& out3 matches Err(e) && e == Error::Reassembly
                &&& es3 == Seq::<SpecEntry>::empty()
            })
        }),
{
    let empty = Seq::<SpecEntry>::empty();
    assert(spec_find_entry(empty, s1.seq_id, s1.channel) == -1);
    let e = SpecEntry {
        seq_id: s1.seq_id,
        channel: s1.channel,
        total: 2,
        slots: spec_empty_slots(2).update(0, Some(s1.payload)),
    };
    let (es1, out1) = spec_step(empty, s1);
    assert(es1 =~= seq![e]);
    assert(es1[0] == e);
    assert(key_matches(es1[0], s2.seq_id, s2.channel));
    assert(spec_find_entry(es1, s2.seq_id, s2.channel) == 0);
    assert(e.slots[1] is None);
    assert(e.slots[0] == Some(s1.payload));
    assert(slots_filled_upto(e.slots, 1));
    assert(spec_concat_upto(e.slots, 0) =~= Seq::<u8>::empty());
    assert(spec_concat_upto(e.slots, 1) =~= s1.payload);
    let (es2, out2) = spec_step(es1, s2);
    assert(es2 =~= empty);
    assert(out2 matches Ok(Some(pf)) && pf.0 == s1.payload + s2.payload);
    let (es3, out3) = spec_step(es1, s1);
    assert(es3 =~= empty);
    assert(out3 matches Err(e3) && e3 == Error::Reassembly);
}

} // verus!
