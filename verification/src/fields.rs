//! Byte-level field helpers shared by the tag-block and sentence
//! parsers: separator search, field splitting, and decimal parsing.

use vstd::prelude::*;

verus! {

/// The first index of `sep` in `s`, or -1 if `s` does not contain it.
pub open spec fn spec_find_byte(s: Seq<u8>, sep: u8) -> int
    decreases s.len(),
{
    if s.len() == 0 {
        -1
    } else if s[0] == sep {
        0
    } else {
        let r = spec_find_byte(s.drop_first(), sep);
        if r < 0 {
            -1
        } else {
            r + 1
        }
    }
}

pub proof fn lemma_find_byte(s: Seq<u8>, sep: u8)
    ensures
        spec_find_byte(s, sep) == -1 ==> forall|i: int| 0 <= i < s.len() ==> s[i] != sep,
        spec_find_byte(s, sep) >= 0 ==> {
            &&& spec_find_byte(s, sep) < s.len()
            &&& s[spec_find_byte(s, sep)] == sep
            &&& forall|i: int| 0 <= i < spec_find_byte(s, sep) ==> s[i] != sep
        },
    decreases s.len(),
{
    if s.len() > 0 && s[0] != sep {
        lemma_find_byte(s.drop_first(), sep);
        assert(forall|i: int| 1 <= i < s.len() ==> s[i] == s.drop_first()[i - 1]);
    }
}

proof fn lemma_find_byte_push(s: Seq<u8>, sep: u8, b: u8)
    ensures
        spec_find_byte(s.push(b), sep) == if spec_find_byte(s, sep) >= 0 {
            spec_find_byte(s, sep)
        } else if b == sep {
            s.len() as int
        } else {
            -1
        },
    decreases s.len(),
{
    if s.len() == 0 {
        assert(s.push(b)[0] == b);
        assert(s.push(b).drop_first() =~= Seq::<u8>::empty());
        assert(spec_find_byte(Seq::<u8>::empty(), sep) == -1);
    } else if s[0] == sep {
        assert(s.push(b)[0] == sep);
    } else {
        assert(s.push(b)[0] == s[0]);
        assert(s.push(b).drop_first() =~= s.drop_first().push(b));
        lemma_find_byte_push(s.drop_first(), sep, b);
        assert(spec_find_byte(s.push(b), sep) == {
            let r = spec_find_byte(s.drop_first().push(b), sep);
            if r < 0 {
                -1int
            } else {
                r + 1
            }
        });
    }
}

/// Searches for the first occurrence of `sep`.
pub fn find_byte(s: &[u8], sep: u8) -> (r: Option<usize>)
    ensures
        match r {
            Some(i) => spec_find_byte(s@, sep) == i,
            None => spec_find_byte(s@, sep) == -1,
        },
{
    let mut i: usize = 0;
    while i < s.len()
        invariant
            i <= s@.len(),
            forall|j: int| 0 <= j < i ==> s@[j] != sep,
        decreases s@.len() - i,
    {
        if s[i] == sep {
            proof {
                lemma_find_byte(s@, sep);
            }
            return Some(i);
        }
        i = i + 1;
    }
    proof {
        lemma_find_byte(s@, sep);
    }
    None
}

/// `s` divided at every occurrence of `sep`: one field per separator
/// gap, empty fields kept, the whole of `s` when no separator occurs.
pub open spec fn spec_split(s: Seq<u8>, sep: u8) -> Seq<Seq<u8>>
    decreases s.len(),
{
    let i = spec_find_byte(s, sep);
    if i < 0 || i >= s.len() {
        seq![s]
    } else {
        seq![s.take(i)] + spec_split(s.skip(i + 1), sep)
    }
}

pub proof fn lemma_split_len(s: Seq<u8>, sep: u8)
    ensures
        spec_split(s, sep).len() >= 1,
{
}

proof fn lemma_split_push(s: Seq<u8>, sep: u8, b: u8)
    ensures
        spec_split(s.push(b), sep) == if b == sep {
            spec_split(s, sep).push(Seq::empty())
        } else {
            spec_split(s, sep).update(
                spec_split(s, sep).len() - 1,
                spec_split(s, sep).last().push(b),
            )
        },
    decreases s.len(),
{
    lemma_find_byte(s, sep);
    lemma_find_byte_push(s, sep, b);
    let i = spec_find_byte(s, sep);
    if i < 0 {
        if b == sep {
            assert(s.push(b).take(s.len() as int) =~= s);
            assert(s.push(b).skip(s.len() as int + 1) =~= Seq::<u8>::empty());
            assert(spec_find_byte(Seq::<u8>::empty(), sep) == -1);
            assert(spec_split(Seq::<u8>::empty(), sep) =~= seq![Seq::<u8>::empty()]);
            assert(spec_split(s.push(b), sep) =~= seq![s].push(Seq::<u8>::empty()));
        } else {
            assert(spec_split(s.push(b), sep) =~= seq![s.push(b)]);
            assert(seq![s].update(0, s.push(b)) =~= seq![s.push(b)]);
        }
    } else {
        assert(s.push(b).take(i) =~= s.take(i));
        assert(s.push(b).skip(i + 1) =~= s.skip(i + 1).push(b));
        lemma_split_push(s.skip(i + 1), sep, b);
        lemma_split_len(s.skip(i + 1), sep);
        let t = spec_split(s.skip(i + 1), sep);
        if b == sep {
            assert((seq![s.take(i)] + t.push(Seq::<u8>::empty())) =~= (seq![s.take(i)]
                + t).push(Seq::<u8>::empty()));
        } else {
            assert((seq![s.take(i)] + t.update(t.len() - 1, t.last().push(b))) =~= (seq![
                s.take(i),
            ] + t).update((seq![s.take(i)] + t).len() - 1, (seq![s.take(i)] + t).last().push(b)));
        }
    }
}

/// The views of a sequence of byte vectors.
pub open spec fn views(r: Seq<Vec<u8>>) -> Seq<Seq<u8>> {
    r.map_values(|v: Vec<u8>| v@)
}

/// Splits `s` at every occurrence of `sep`, keeping empty fields.
pub fn split_bytes(s: &[u8], sep: u8) -> (r: Vec<Vec<u8>>)
    ensures
        views(r@) == spec_split(s@, sep),
        r@.len() >= 1,
{
    let mut parts: Vec<Vec<u8>> = Vec::new();
    let mut cur: Vec<u8> = Vec::new();
    let mut i: usize = 0;
    proof {
        assert(s@.take(0) =~= Seq::<u8>::empty());
        assert(spec_split(Seq::<u8>::empty(), sep) =~= seq![Seq::<u8>::empty()]);
        assert(views(parts@).push(cur@) =~= seq![Seq::<u8>::empty()]);
    }
    while i < s.len()
        invariant
            i <= s@.len(),
            views(parts@).push(cur@) == spec_split(s@.take(i as int), sep),
        decreases s@.len() - i,
    {
        proof {
            assert(s@.take(i + 1) =~= s@.take(i as int).push(s@[i as int]));
            lemma_split_push(s@.take(i as int), sep, s@[i as int]);
            lemma_split_len(s@.take(i as int), sep);
        }
        let b = s[i];
        if b == sep {
            let ghost old_parts = parts@;
            let ghost old_cur = cur@;
            parts.push(cur);
            cur = Vec::new();
            proof {
                assert(views(parts@).push(cur@) =~= views(old_parts).push(old_cur).push(
                    Seq::<u8>::empty(),
                ));
            }
        } else {
            let ghost old_parts = parts@;
            let ghost old_cur = cur@;
            cur.push(b);
            proof {
                let sp = views(old_parts).push(old_cur);
                assert(views(parts@).push(cur@) =~= sp.update(sp.len() - 1, sp.last().push(b)));
            }
        }
        i = i + 1;
    }
    proof {
        assert(s@.take(s@.len() as int) =~= s@);
    }
    parts.push(cur);
    proof {
        assert(views(parts@) =~= spec_split(s@, sep));
    }
    parts
}

/// Whether every byte of `s` is a decimal digit.
pub open spec fn spec_all_digits(s: Seq<u8>) -> bool {
    forall|i: int| 0 <= i < s.len() ==> 48 <= #[trigger] s[i] <= 57
}

/// The number written by a digit string, most significant digit first;
/// non-digit bytes contribute nothing (validity is checked separately).
pub open spec fn spec_dec_value(s: Seq<u8>) -> nat
    decreases s.len(),
{
    if s.len() == 0 {
        0
    } else {
        spec_dec_value(s.drop_last()) * 10 + if 48 <= s.last() <= 57 {
            (s.last() - 48) as nat
        } else {
            0nat
        }
    }
}

/// What parsing `s` as an unsigned 64-bit decimal yields: the value for
/// a non-empty all-digit string whose value fits, `None` otherwise.
pub open spec fn spec_dec_u64(s: Seq<u8>) -> Option<u64> {
    if s.len() == 0 || !spec_all_digits(s) || spec_dec_value(s) > u64::MAX {
        None
    } else {
        Some(spec_dec_value(s) as u64)
    }
}

/// As `spec_dec_u64`, for 32-bit results.
pub open spec fn spec_dec_u32(s: Seq<u8>) -> Option<u32> {
    match spec_dec_u64(s) {
        Some(v) => if v <= u32::MAX {
            Some(v as u32)
        } else {
            None
        },
        None => None,
    }
}

proof fn lemma_dec_value_prefix(s: Seq<u8>, i: int)
    requires
        0 <= i <= s.len(),
    ensures
        spec_dec_value(s.take(i)) <= spec_dec_value(s),
    decreases s.len(),
{
    if i < s.len() {
        assert(s.take(i) =~= s.drop_last().take(i));
        lemma_dec_value_prefix(s.drop_last(), i);
    } else {
        assert(s.take(i) =~= s);
    }
}

/// Parses a non-empty decimal digit string into a `u64`; any non-digit
/// byte, an empty string, or overflow yields `None`.
pub fn parse_dec_u64(s: &[u8]) -> (r: Option<u64>)
    ensures
        r == spec_dec_u64(s@),
{
    if s.len() == 0 {
        return None;
    }
    let mut acc: u64 = 0;
    let mut i: usize = 0;
    while i < s.len()
        invariant
            i <= s@.len(),
            acc == spec_dec_value(s@.take(i as int)),
            forall|j: int| 0 <= j < i ==> 48 <= #[trigger] s@[j] <= 57,
        decreases s@.len() - i,
    {
        let b = s[i];
        if b < 48 || b > 57 {
            return None;
        }
        proof {
            assert(s@.take(i + 1).drop_last() =~= s@.take(i as int));
        }
        let next = match acc.checked_mul(10) {
            Some(m) => m.checked_add((b - 48) as u64),
            None => None,
        };
        match next {
            Some(v) => {
                acc = v;
            },
            None => {
                proof {
                    assert(spec_dec_value(s@.take(i + 1)) > u64::MAX);
                    lemma_dec_value_prefix(s@, i + 1);
                }
                return None;
            },
        }
        i = i + 1;
    }
    proof {
        assert(s@.take(s@.len() as int) =~= s@);
    }
    Some(acc)
}

/// Parses a non-empty decimal digit string into a `u32`.
pub fn parse_dec_u32(s: &[u8]) -> (r: Option<u32>)
    ensures
        r == spec_dec_u32(s@),
{
    match parse_dec_u64(s) {
        Some(v) => if v <= u32::MAX as u64 {
            Some(v as u32)
        } else {
            None
        },
        None => None,
    }
}

/// Compares two byte strings for equality.
pub fn bytes_eq(a: &[u8], b: &[u8]) -> (r: bool)
    ensures
        r == (a@ == b@),
{
    if a.len() != b.len() {
        return false;
    }
    let mut i: usize = 0;
    while i < a.len()
        invariant
            i <= a@.len(),
            a@.len() == b@.len(),
            forall|j: int| 0 <= j < i ==> a@[j] == b@[j],
        decreases a@.len() - i,
    {
        if a[i] != b[i] {
            return false;
        }
        i = i + 1;
    }
    proof {
        assert(a@ =~= b@);
    }
    true
}

} // verus!
