//! The text of saved links: fields cut at a separator byte, numbers in
//! decimal, and the two words of a flag.

use vstd::prelude::*;

verus! {

/// The byte between the fields of a line.
pub const COMMA: u8 = 44;

/// The byte that ends a line.
pub const NEWLINE: u8 = 10;

/// Where the first separator stands in a text, or the text's length where
/// it holds none.
pub open spec fn sep_pos(s: Seq<u8>, sep: u8) -> int
    decreases s.len(),
{
    if s.len() == 0 {
        0
    } else if s[0] == sep {
        0
    } else {
        1 + sep_pos(s.drop_first(), sep)
    }
}

/// The first separator stands where nothing before is one.
pub proof fn lemma_sep_pos(s: Seq<u8>, sep: u8, k: int)
    requires
        0 <= k <= s.len(),
        forall|j: int| 0 <= j < k ==> s[j] != sep,
        k == s.len() || s[k] == sep,
    ensures
        sep_pos(s, sep) == k,
    decreases k,
{
    if k > 0 {
        lemma_sep_pos(s.drop_first(), sep, k - 1);
    }
}

/// Finds the first separator of the stretch from `start` to `limit`.
pub fn find_sep(s: &[u8], start: usize, limit: usize, sep: u8) -> (end: usize)
    requires
        start <= limit <= s@.len(),
    ensures
        start <= end <= limit,
        end - start == sep_pos(s@.subrange(start as int, limit as int), sep),
{
    let mut end: usize = start;
    while end < limit && s[end] != sep
        invariant
            start <= end <= limit <= s@.len(),
            forall|j: int| start <= j < end ==> s@[j] != sep,
        decreases limit - end,
    {
        end = end + 1;
    }
    proof {
        lemma_sep_pos(s@.subrange(start as int, limit as int), sep, end - start);
    }
    end
}

/// A number in decimal digits, the highest first, without leading zeros.
pub open spec fn decimal(n: nat) -> Seq<u8>
    decreases n,
{
    if n < 10 {
        seq![(48 + n) as u8]
    } else {
        decimal(n / 10).push((48 + n % 10) as u8)
    }
}

/// Writes a number in decimal digits.
pub fn decimal_of(n: u64) -> (text: Vec<u8>)
    ensures
        text@ == decimal(n as nat),
    decreases n,
{
    if n < 10 {
        let digit: u8 = 48 + n as u8;
        let mut text: Vec<u8> = Vec::new();
        text.push(digit);
        assert(text@ =~= seq![(48 + n) as u8]);
        text
    } else {
        let mut text = decimal_of(n / 10);
        let digit: u8 = 48 + (n % 10) as u8;
        text.push(digit);
        text
    }
}

/// The word for a flag: `true` or `false`.
pub open spec fn flag_text(flag: bool) -> Seq<u8> {
    if flag {
        seq![116u8, 114u8, 117u8, 101u8]
    } else {
        seq![102u8, 97u8, 108u8, 115u8, 101u8]
    }
}

/// The flag a word stands for, where it is one of the two words.
pub open spec fn flag_of(word: Seq<u8>) -> Option<bool> {
    if word == flag_text(true) {
        Some(true)
    } else if word == flag_text(false) {
        Some(false)
    } else {
        None
    }
}

/// Whether a stretch of a text reads the same as another text.
pub fn same_text(s: &[u8], start: usize, end: usize, other: &Vec<u8>) -> (same: bool)
    requires
        start <= end <= s@.len(),
    ensures
        same == (s@.subrange(start as int, end as int) == other@),
{
    let ghost part = s@.subrange(start as int, end as int);
    if end - start != other.len() {
        return false;
    }
    let mut k: usize = 0;
    while k < other.len()
        invariant
            start <= end <= s@.len(),
            end - start == other@.len(),
            k <= other@.len(),
            part == s@.subrange(start as int, end as int),
            forall|j: int| 0 <= j < k ==> part[j] == other@[j],
        decreases other@.len() - k,
    {
        if s[start + k] != other[k] {
            assert(part[k as int] != other@[k as int]);
            return false;
        }
        k = k + 1;
    }
    assert(part =~= other@);
    true
}

/// Reads the flag that a stretch of a text spells.
pub fn read_flag(s: &[u8], start: usize, end: usize) -> (flag: Option<bool>)
    requires
        start <= end <= s@.len(),
    ensures
        flag == flag_of(s@.subrange(start as int, end as int)),
{
    let mut yes: Vec<u8> = Vec::new();
    yes.push(116u8);
    yes.push(114u8);
    yes.push(117u8);
    yes.push(101u8);
    assert(yes@ =~= flag_text(true));
    let mut no: Vec<u8> = Vec::new();
    no.push(102u8);
    no.push(97u8);
    no.push(108u8);
    no.push(115u8);
    no.push(101u8);
    assert(no@ =~= flag_text(false));
    if same_text(s, start, end, &yes) {
        Some(true)
    } else if same_text(s, start, end, &no) {
        Some(false)
    } else {
        None
    }
}

/// Appends a text to a buffer.
pub fn append_text(out: &mut Vec<u8>, text: &Vec<u8>)
    ensures
        final(out)@ == old(out)@ + text@,
{
    let ghost before = out@;
    let mut k: usize = 0;
    while k < text.len()
        invariant
            k <= text@.len(),
            out@ == before + text@.take(k as int),
        decreases text@.len() - k,
    {
        out.push(text[k]);
        assert(out@ =~= before + text@.take(k + 1));
        k = k + 1;
    }
    assert(text@.take(text@.len() as int) =~= text@);
}

} // verus!
