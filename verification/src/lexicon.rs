//! Word statistics: stop words, long words, technical suffixes, distinct words.
use vstd::prelude::*;
use crate::text::{chars_of, seqs_of, split_words, utf8_longer_than, utf8_len, words};

verus! {

/// The common function words that carry little meaning in a query.
pub open spec fn stop_words() -> Seq<Seq<char>> {
    seq![
        seq!['t', 'h', 'e'],
        seq!['a'],
        seq!['a', 'n'],
        seq!['a', 'n', 'd'],
        seq!['o', 'r'],
        seq!['o', 'f'],
        seq!['t', 'o'],
        seq!['i', 'n'],
        seq!['f', 'o', 'r'],
        seq!['o', 'n'],
        seq!['a', 't'],
        seq!['b', 'y'],
        seq!['i', 's'],
        seq!['a', 'r', 'e'],
        seq!['w', 'a', 's'],
        seq!['w', 'e', 'r', 'e'],
        seq!['b', 'e'],
        seq!['b', 'e', 'e', 'n'],
        seq!['b', 'e', 'i', 'n', 'g'],
        seq!['a', 's'],
        seq!['i', 't'],
        seq!['t', 'h', 'i', 's'],
        seq!['t', 'h', 'a', 't'],
        seq!['w', 'i', 't', 'h'],
        seq!['f', 'r', 'o', 'm'],
        seq!['w', 'h', 'a', 't'],
        seq!['w', 'h', 'i', 'c', 'h'],
        seq!['w', 'h', 'o'],
        seq!['w', 'h', 'o', 'm'],
        seq!['w', 'h', 'o', 's', 'e'],
        seq!['w', 'h', 'e', 'n'],
        seq!['w', 'h', 'e', 'r', 'e'],
        seq!['w', 'h', 'y'],
        seq!['h', 'o', 'w'],
        seq!['d', 'o'],
        seq!['d', 'o', 'e', 's'],
        seq!['d', 'i', 'd'],
        seq!['d', 'o', 'i', 'n', 'g'],
        seq!['d', 'o', 'n', 'e'],
        seq!['h', 'a', 'v', 'e'],
        seq!['h', 'a', 's'],
        seq!['h', 'a', 'd'],
        seq!['c', 'a', 'n'],
        seq!['c', 'o', 'u', 'l', 'd'],
        seq!['s', 'h', 'a', 'l', 'l'],
        seq!['s', 'h', 'o', 'u', 'l', 'd'],
        seq!['w', 'i', 'l', 'l'],
        seq!['w', 'o', 'u', 'l', 'd'],
        seq!['m', 'a', 'y'],
        seq!['m', 'i', 'g', 'h', 't'],
        seq!['m', 'u', 's', 't'],
        seq!['n', 'o', 't'],
        seq!['n', 'o', 'r'],
        seq!['b', 'u', 't'],
        seq!['i', 'f'],
        seq!['t', 'h', 'e', 'n'],
        seq!['t', 'h', 'a', 'n'],
        seq!['s', 'o'],
        seq!['s', 'u', 'c', 'h'],
        seq!['i'],
        seq!['m', 'e'],
        seq!['m', 'y'],
        seq!['w', 'e'],
        seq!['u', 's'],
        seq!['o', 'u', 'r'],
        seq!['y', 'o', 'u'],
        seq!['y', 'o', 'u', 'r'],
        seq!['h', 'e'],
        seq!['h', 'i', 'm'],
        seq!['h', 'i', 's'],
        seq!['s', 'h', 'e'],
        seq!['h', 'e', 'r'],
        seq!['t', 'h', 'e', 'y'],
        seq!['t', 'h', 'e', 'm'],
        seq!['t', 'h', 'e', 'i', 'r'],
        seq!['t', 'h', 'e', 'r', 'e'],
        seq!['h', 'e', 'r', 'e'],
        seq!['t', 'h', 'e', 's', 'e'],
        seq!['t', 'h', 'o', 's', 'e'],
        seq!['a', 'b', 'o', 'u', 't'],
        seq!['i', 'n', 't', 'o'],
        seq!['o', 'n', 't', 'o'],
        seq!['o', 'v', 'e', 'r'],
        seq!['u', 'n', 'd', 'e', 'r'],
        seq!['b', 'e', 't', 'w', 'e', 'e', 'n'],
        seq!['a', 'c', 'r', 'o', 's', 's'],
        seq!['d', 'u', 'r', 'i', 'n', 'g'],
        seq!['w', 'i', 't', 'h', 'i', 'n'],
        seq!['w', 'i', 't', 'h', 'o', 'u', 't'],
        seq!['a', 'n', 'y'],
        seq!['a', 'l', 'l'],
        seq!['b', 'o', 't', 'h'],
        seq!['e', 'a', 'c', 'h'],
        seq!['f', 'e', 'w'],
        seq!['m', 'o', 'r', 'e'],
        seq!['m', 'o', 's', 't'],
        seq!['o', 't', 'h', 'e', 'r'],
        seq!['s', 'o', 'm', 'e'],
        seq!['o', 'n', 'l', 'y'],
        seq!['o', 'w', 'n'],
        seq!['s', 'a', 'm', 'e'],
        seq!['t', 'o', 'o'],
        seq!['v', 'e', 'r', 'y'],
        seq!['j', 'u', 's', 't'],
        seq!['a', 'l', 's', 'o']
    ]
}

/// The stop words, one vector of characters each.
pub fn stop_word_list() -> (v: Vec<Vec<char>>)
    ensures
        seqs_of(v@) == stop_words(),
{
    let v: Vec<Vec<char>> = vec![
        vec!['t', 'h', 'e'],
        vec!['a'],
        vec!['a', 'n'],
        vec!['a', 'n', 'd'],
        vec!['o', 'r'],
        vec!['o', 'f'],
        vec!['t', 'o'],
        vec!['i', 'n'],
        vec!['f', 'o', 'r'],
        vec!['o', 'n'],
        vec!['a', 't'],
        vec!['b', 'y'],
        vec!['i', 's'],
        vec!['a', 'r', 'e'],
        vec!['w', 'a', 's'],
        vec!['w', 'e', 'r', 'e'],
        vec!['b', 'e'],
        vec!['b', 'e', 'e', 'n'],
        vec!['b', 'e', 'i', 'n', 'g'],
        vec!['a', 's'],
        vec!['i', 't'],
        vec!['t', 'h', 'i', 's'],
        vec!['t', 'h', 'a', 't'],
        vec!['w', 'i', 't', 'h'],
        vec!['f', 'r', 'o', 'm'],
        vec!['w', 'h', 'a', 't'],
        vec!['w', 'h', 'i', 'c', 'h'],
        vec!['w', 'h', 'o'],
        vec!['w', 'h', 'o', 'm'],
        vec!['w', 'h', 'o', 's', 'e'],
        vec!['w', 'h', 'e', 'n'],
        vec!['w', 'h', 'e', 'r', 'e'],
        vec!['w', 'h', 'y'],
        vec!['h', 'o', 'w'],
        vec!['d', 'o'],
        vec!['d', 'o', 'e', 's'],
        vec!['d', 'i', 'd'],
        vec!['d', 'o', 'i', 'n', 'g'],
        vec!['d', 'o', 'n', 'e'],
        vec!['h', 'a', 'v', 'e'],
        vec!['h', 'a', 's'],
        vec!['h', 'a', 'd'],
        vec!['c', 'a', 'n'],
        vec!['c', 'o', 'u', 'l', 'd'],
        vec!['s', 'h', 'a', 'l', 'l'],
        vec!['s', 'h', 'o', 'u', 'l', 'd'],
        vec!['w', 'i', 'l', 'l'],
        vec!['w', 'o', 'u', 'l', 'd'],
        vec!['m', 'a', 'y'],
        vec!['m', 'i', 'g', 'h', 't'],
        vec!['m', 'u', 's', 't'],
        vec!['n', 'o', 't'],
        vec!['n', 'o', 'r'],
        vec!['b', 'u', 't'],
        vec!['i', 'f'],
        vec!['t', 'h', 'e', 'n'],
        vec!['t', 'h', 'a', 'n'],
        vec!['s', 'o'],
        vec!['s', 'u', 'c', 'h'],
        vec!['i'],
        vec!['m', 'e'],
        vec!['m', 'y'],
        vec!['w', 'e'],
        vec!['u', 's'],
        vec!['o', 'u', 'r'],
        vec!['y', 'o', 'u'],
        vec!['y', 'o', 'u', 'r'],
        vec!['h', 'e'],
        vec!['h', 'i', 'm'],
        vec!['h', 'i', 's'],
        vec!['s', 'h', 'e'],
        vec!['h', 'e', 'r'],
        vec!['t', 'h', 'e', 'y'],
        vec!['t', 'h', 'e', 'm'],
        vec!['t', 'h', 'e', 'i', 'r'],
        vec!['t', 'h', 'e', 'r', 'e'],
        vec!['h', 'e', 'r', 'e'],
        vec!['t', 'h', 'e', 's', 'e'],
        vec!['t', 'h', 'o', 's', 'e'],
        vec!['a', 'b', 'o', 'u', 't'],
        vec!['i', 'n', 't', 'o'],
        vec!['o', 'n', 't', 'o'],
        vec!['o', 'v', 'e', 'r'],
        vec!['u', 'n', 'd', 'e', 'r'],
        vec!['b', 'e', 't', 'w', 'e', 'e', 'n'],
        vec!['a', 'c', 'r', 'o', 's', 's'],
        vec!['d', 'u', 'r', 'i', 'n', 'g'],
        vec!['w', 'i', 't', 'h', 'i', 'n'],
        vec!['w', 'i', 't', 'h', 'o', 'u', 't'],
        vec!['a', 'n', 'y'],
        vec!['a', 'l', 'l'],
        vec!['b', 'o', 't', 'h'],
        vec!['e', 'a', 'c', 'h'],
        vec!['f', 'e', 'w'],
        vec!['m', 'o', 'r', 'e'],
        vec!['m', 'o', 's', 't'],
        vec!['o', 't', 'h', 'e', 'r'],
        vec!['s', 'o', 'm', 'e'],
        vec!['o', 'n', 'l', 'y'],
        vec!['o', 'w', 'n'],
        vec!['s', 'a', 'm', 'e'],
        vec!['t', 'o', 'o'],
        vec!['v', 'e', 'r', 'y'],
        vec!['j', 'u', 's', 't'],
        vec!['a', 'l', 's', 'o']
    ];
    assert(v@.len() == 105);
    assert(v@[0]@ =~= seq!['t', 'h', 'e']);
    assert(v@[1]@ =~= seq!['a']);
    assert(v@[2]@ =~= seq!['a', 'n']);
    assert(v@[3]@ =~= seq!['a', 'n', 'd']);
    assert(v@[4]@ =~= seq!['o', 'r']);
    assert(v@[5]@ =~= seq!['o', 'f']);
    assert(v@[6]@ =~= seq!['t', 'o']);
    assert(v@[7]@ =~= seq!['i', 'n']);
    assert(v@[8]@ =~= seq!['f', 'o', 'r']);
    assert(v@[9]@ =~= seq!['o', 'n']);
    assert(v@[10]@ =~= seq!['a', 't']);
    assert(v@[11]@ =~= seq!['b', 'y']);
    assert(v@[12]@ =~= seq!['i', 's']);
    assert(v@[13]@ =~= seq!['a', 'r', 'e']);
    assert(v@[14]@ =~= seq!['w', 'a', 's']);
    assert(v@[15]@ =~= seq!['w', 'e', 'r', 'e']);
    assert(v@[16]@ =~= seq!['b', 'e']);
    assert(v@[17]@ =~= seq!['b', 'e', 'e', 'n']);
    assert(v@[18]@ =~= seq!['b', 'e', 'i', 'n', 'g']);
    assert(v@[19]@ =~= seq!['a', 's']);
    assert(v@[20]@ =~= seq!['i', 't']);
    assert(v@[21]@ =~= seq!['t', 'h', 'i', 's']);
    assert(v@[22]@ =~= seq!['t', 'h', 'a', 't']);
    assert(v@[23]@ =~= seq!['w', 'i', 't', 'h']);
    assert(v@[24]@ =~= seq!['f', 'r', 'o', 'm']);
    assert(v@[25]@ =~= seq!['w', 'h', 'a', 't']);
    assert(v@[26]@ =~= seq!['w', 'h', 'i', 'c', 'h']);
    assert(v@[27]@ =~= seq!['w', 'h', 'o']);
    assert(v@[28]@ =~= seq!['w', 'h', 'o', 'm']);
    assert(v@[29]@ =~= seq!['w', 'h', 'o', 's', 'e']);
    assert(v@[30]@ =~= seq!['w', 'h', 'e', 'n']);
    assert(v@[31]@ =~= seq!['w', 'h', 'e', 'r', 'e']);
    assert(v@[32]@ =~= seq!['w', 'h', 'y']);
    assert(v@[33]@ =~= seq!['h', 'o', 'w']);
    assert(v@[34]@ =~= seq!['d', 'o']);
    assert(v@[35]@ =~= seq!['d', 'o', 'e', 's']);
    assert(v@[36]@ =~= seq!['d', 'i', 'd']);
    assert(v@[37]@ =~= seq!['d', 'o', 'i', 'n', 'g']);
    assert(v@[38]@ =~= seq!['d', 'o', 'n', 'e']);
    assert(v@[39]@ =~= seq!['h', 'a', 'v', 'e']);
    assert(v@[40]@ =~= seq!['h', 'a', 's']);
    assert(v@[41]@ =~= seq!['h', 'a', 'd']);
    assert(v@[42]@ =~= seq!['c', 'a', 'n']);
    assert(v@[43]@ =~= seq!['c', 'o', 'u', 'l', 'd']);
    assert(v@[44]@ =~= seq!['s', 'h', 'a', 'l', 'l']);
    assert(v@[45]@ =~= seq!['s', 'h', 'o', 'u', 'l', 'd']);
    assert(v@[46]@ =~= seq!['w', 'i', 'l', 'l']);
    assert(v@[47]@ =~= seq!['w', 'o', 'u', 'l', 'd']);
    assert(v@[48]@ =~= seq!['m', 'a', 'y']);
    assert(v@[49]@ =~= seq!['m', 'i', 'g', 'h', 't']);
    assert(v@[50]@ =~= seq!['m', 'u', 's', 't']);
    assert(v@[51]@ =~= seq!['n', 'o', 't']);
    assert(v@[52]@ =~= seq!['n', 'o', 'r']);
    assert(v@[53]@ =~= seq!['b', 'u', 't']);
    assert(v@[54]@ =~= seq!['i', 'f']);
    assert(v@[55]@ =~= seq!['t', 'h', 'e', 'n']);
    assert(v@[56]@ =~= seq!['t', 'h', 'a', 'n']);
    assert(v@[57]@ =~= seq!['s', 'o']);
    assert(v@[58]@ =~= seq!['s', 'u', 'c', 'h']);
    assert(v@[59]@ =~= seq!['i']);
    assert(v@[60]@ =~= seq!['m', 'e']);
    assert(v@[61]@ =~= seq!['m', 'y']);
    assert(v@[62]@ =~= seq!['w', 'e']);
    assert(v@[63]@ =~= seq!['u', 's']);
    assert(v@[64]@ =~= seq!['o', 'u', 'r']);
    assert(v@[65]@ =~= seq!['y', 'o', 'u']);
    assert(v@[66]@ =~= seq!['y', 'o', 'u', 'r']);
    assert(v@[67]@ =~= seq!['h', 'e']);
    assert(v@[68]@ =~= seq!['h', 'i', 'm']);
    assert(v@[69]@ =~= seq!['h', 'i', 's']);
    assert(v@[70]@ =~= seq!['s', 'h', 'e']);
    assert(v@[71]@ =~= seq!['h', 'e', 'r']);
    assert(v@[72]@ =~= seq!['t', 'h', 'e', 'y']);
    assert(v@[73]@ =~= seq!['t', 'h', 'e', 'm']);
    assert(v@[74]@ =~= seq!['t', 'h', 'e', 'i', 'r']);
    assert(v@[75]@ =~= seq!['t', 'h', 'e', 'r', 'e']);
    assert(v@[76]@ =~= seq!['h', 'e', 'r', 'e']);
    assert(v@[77]@ =~= seq!['t', 'h', 'e', 's', 'e']);
    assert(v@[78]@ =~= seq!['t', 'h', 'o', 's', 'e']);
    assert(v@[79]@ =~= seq!['a', 'b', 'o', 'u', 't']);
    assert(v@[80]@ =~= seq!['i', 'n', 't', 'o']);
    assert(v@[81]@ =~= seq!['o', 'n', 't', 'o']);
    assert(v@[82]@ =~= seq!['o', 'v', 'e', 'r']);
    assert(v@[83]@ =~= seq!['u', 'n', 'd', 'e', 'r']);
    assert(v@[84]@ =~= seq!['b', 'e', 't', 'w', 'e', 'e', 'n']);
    assert(v@[85]@ =~= seq!['a', 'c', 'r', 'o', 's', 's']);
    assert(v@[86]@ =~= seq!['d', 'u', 'r', 'i', 'n', 'g']);
    assert(v@[87]@ =~= seq!['w', 'i', 't', 'h', 'i', 'n']);
    assert(v@[88]@ =~= seq!['w', 'i', 't', 'h', 'o', 'u', 't']);
    assert(v@[89]@ =~= seq!['a', 'n', 'y']);
    assert(v@[90]@ =~= seq!['a', 'l', 'l']);
    assert(v@[91]@ =~= seq!['b', 'o', 't', 'h']);
    assert(v@[92]@ =~= seq!['e', 'a', 'c', 'h']);
    assert(v@[93]@ =~= seq!['f', 'e', 'w']);
    assert(v@[94]@ =~= seq!['m', 'o', 'r', 'e']);
    assert(v@[95]@ =~= seq!['m', 'o', 's', 't']);
    assert(v@[96]@ =~= seq!['o', 't', 'h', 'e', 'r']);
    assert(v@[97]@ =~= seq!['s', 'o', 'm', 'e']);
    assert(v@[98]@ =~= seq!['o', 'n', 'l', 'y']);
    assert(v@[99]@ =~= seq!['o', 'w', 'n']);
    assert(v@[100]@ =~= seq!['s', 'a', 'm', 'e']);
    assert(v@[101]@ =~= seq!['t', 'o', 'o']);
    assert(v@[102]@ =~= seq!['v', 'e', 'r', 'y']);
    assert(v@[103]@ =~= seq!['j', 'u', 's', 't']);
    assert(v@[104]@ =~= seq!['a', 'l', 's', 'o']);
    assert(seqs_of(v@) =~= stop_words());
    v
}


/// Whether `s` ends with `suffix`.
pub open spec fn ends_with(s: Seq<char>, suffix: Seq<char>) -> bool {
    suffix.len() <= s.len() && s.subrange(s.len() - suffix.len(), s.len() as int) == suffix
}

/// The endings that mark a word as technical.
pub open spec fn technical_suffixes() -> Seq<Seq<char>> {
    seq![seq!['o', 'l', 'o', 'g', 'y'], seq!['i', 's', 'm'], seq!['t', 'i', 'o', 'n'], seq!['m', 'e', 'n', 't']]
}

/// A stop word.
pub open spec fn is_stop_word(w: Seq<char>) -> bool {
    stop_words().contains(w)
}

/// A word of more than five bytes that is no stop word.
pub open spec fn is_long_word(w: Seq<char>) -> bool {
    utf8_len(w) > 5 && !is_stop_word(w)
}

/// A word with a technical ending.
pub open spec fn is_suffixed_word(w: Seq<char>) -> bool {
    exists|k: int| 0 <= k < technical_suffixes().len() && ends_with(w, #[trigger] technical_suffixes()[k])
}

/// What a lower-cased text holds: a name for the result of `str::to_lowercase`,
/// which maps each character by the Unicode lower-case mapping.
pub uninterp spec fn lowercase(s: Seq<char>) -> Seq<char>;

/// Lower-cases `s` with `str::to_lowercase`.
#[verifier::external_body]
pub fn to_lowercase(s: &str) -> (r: String)
    ensures
        r@ == lowercase(s@),
{
    s.to_lowercase()
}

/// The counts of words of a text, its words taken after lower-casing.
pub struct WordStats {
    /// All words.
    pub words: usize,
    /// Words of more than five bytes that are no stop words.
    pub long_words: usize,
    /// Stop words.
    pub stop_words: usize,
    /// Words with a technical ending.
    pub suffixed_words: usize,
    /// Distinct words.
    pub distinct_words: usize,
}

/// The lower-cased words of `text`.
pub open spec fn lower_words(text: Seq<char>) -> Seq<Seq<char>> {
    words(lowercase(text))
}

impl WordStats {
    /// Whether these are the counts of the lower-cased words `ws`.
    pub open spec fn counts(self, ws: Seq<Seq<char>>) -> bool {
        &&& self.words == ws.len()
        &&& self.long_words == ws.filter(|w: Seq<char>| is_long_word(w)).len()
        &&& self.stop_words == ws.filter(|w: Seq<char>| is_stop_word(w)).len()
        &&& self.suffixed_words == ws.filter(|w: Seq<char>| is_suffixed_word(w)).len()
        &&& self.distinct_words == ws.to_set().len()
    }

    /// Whether these are the counts of the text `text`.
    pub open spec fn of_text(self, text: Seq<char>) -> bool {
        self.counts(lower_words(text))
    }
}

/// Whether `a` and `b` hold the same characters.
pub fn same_chars(a: &[char], b: &[char]) -> (r: bool)
    ensures
        r == (a@ == b@),
{
    if a.len() != b.len() {
        return false;
    }
    let mut i: usize = 0;
    while i < a.len()
        invariant
            a.len() == b.len(),
            i <= a.len(),
            forall|j: int| 0 <= j < i ==> a@[j] == b@[j],
        decreases a.len() - i,
    {
        if a[i] != b[i] {
            return false;
        }
        i = i + 1;
    }
    assert(a@ =~= b@);
    true
}

/// Whether `list` holds `w`.
pub fn contains_chars(list: &Vec<Vec<char>>, w: &[char]) -> (r: bool)
    ensures
        r == seqs_of(list@).contains(w@),
{
    let mut i: usize = 0;
    while i < list.len()
        invariant
            i <= list.len(),
            forall|j: int| 0 <= j < i ==> seqs_of(list@)[j] != w@,
        decreases list.len() - i,
    {
        if same_chars(list[i].as_slice(), w) {
            assert(seqs_of(list@)[i as int] == w@);
            return true;
        }
        i = i + 1;
    }
    false
}

/// Whether `s` ends with `suffix`.
pub fn chars_end_with(s: &[char], suffix: &[char]) -> (r: bool)
    ensures
        r == ends_with(s@, suffix@),
{
    if suffix.len() > s.len() {
        return false;
    }
    let off = s.len() - suffix.len();
    let mut i: usize = 0;
    while i < suffix.len()
        invariant
            off + suffix.len() == s.len(),
            i <= suffix.len(),
            forall|j: int| 0 <= j < i ==> s@[off + j] == suffix@[j],
        decreases suffix.len() - i,
    {
        if s[off + i] != suffix[i] {
            assert(s@.subrange(off as int, s.len() as int)[i as int] == s@[off + i]);
            return false;
        }
        i = i + 1;
    }
    assert(s@.subrange(off as int, s.len() as int) =~= suffix@);
    true
}

/// Whether `w` has a technical ending.
pub fn has_technical_suffix(w: &[char]) -> (r: bool)
    ensures
        r == is_suffixed_word(w@),
{
    let suffixes: Vec<Vec<char>> = vec![vec!['o', 'l', 'o', 'g', 'y'], vec!['i', 's', 'm'], vec!['t', 'i', 'o', 'n'], vec!['m', 'e', 'n', 't']];
    assert(suffixes@[0]@ =~= technical_suffixes()[0]);
    assert(suffixes@[1]@ =~= technical_suffixes()[1]);
    assert(suffixes@[2]@ =~= technical_suffixes()[2]);
    assert(suffixes@[3]@ =~= technical_suffixes()[3]);
    let mut k: usize = 0;
    while k < 4
        invariant
            k <= 4,
            suffixes@.len() == 4,
            forall|j: int| 0 <= j < 4 ==> (#[trigger] suffixes@[j])@ == technical_suffixes()[j],
            forall|j: int| 0 <= j < k ==> !ends_with(w@, #[trigger] technical_suffixes()[j]),
        decreases 4 - k,
    {
        if chars_end_with(w, suffixes[k].as_slice()) {
            return true;
        }
        k = k + 1;
    }
    false
}

proof fn lemma_filter_step(ws: Seq<Seq<char>>, i: int, p: spec_fn(Seq<char>) -> bool)
    requires
        0 <= i < ws.len(),
    ensures
        ws.take(i + 1).filter(p) == if p(ws[i]) {
            ws.take(i).filter(p).push(ws[i])
        } else {
            ws.take(i).filter(p)
        },
{
    reveal_with_fuel(Seq::filter, 1);
    assert(ws.take(i + 1).drop_last() =~= ws.take(i));
}

proof fn lemma_to_set_step(ws: Seq<Seq<char>>, i: int)
    requires
        0 <= i < ws.len(),
    ensures
        ws.take(i + 1).to_set().len() == ws.take(i).to_set().len() + if ws.take(i).contains(ws[i]) {
            0int
        } else {
            1int
        },
{
    broadcast use {vstd::set::group_set_axioms, vstd::seq_lib::seq_to_set_is_finite};
    assert(ws.take(i + 1).to_set() =~= ws.take(i).to_set().insert(ws[i])) by {
        assert forall|x: Seq<char>| ws.take(i + 1).contains(x) implies ws.take(i).contains(x) || x == ws[i] by {
            let j = choose|j: int| 0 <= j < i + 1 && #[trigger] ws.take(i + 1)[j] == x;
            if j < i {
                assert(ws.take(i)[j] == x);
            }
        }
        assert forall|x: Seq<char>| ws.take(i).contains(x) implies ws.take(i + 1).contains(x) by {
            let j = choose|j: int| 0 <= j < i && #[trigger] ws.take(i)[j] == x;
            assert(ws.take(i + 1)[j] == x);
        }
        assert(ws.take(i + 1)[i] == ws[i]);
    }
}

/// Counts the words of the words list `ws` (already lower-cased).
pub fn count_words_of(ws: &Vec<Vec<char>>) -> (st: WordStats)
    ensures
        st.counts(seqs_of(ws@)),
{
    let ghost v = seqs_of(ws@);
    let stops = stop_word_list();
    let mut long_words: usize = 0;
    let mut stop_count: usize = 0;
    let mut suffixed: usize = 0;
    let mut distinct: usize = 0;
    let mut i: usize = 0;
    proof {
        broadcast use vstd::set::group_set_axioms;
        assert(v.take(0).to_set() =~= Set::<Seq<char>>::empty());
        reveal_with_fuel(Seq::filter, 1);
    }
    while i < ws.len()
        invariant
            i <= ws.len(),
            v == seqs_of(ws@),
            seqs_of(stops@) == stop_words(),
            long_words == v.take(i as int).filter(|w: Seq<char>| is_long_word(w)).len(),
            stop_count == v.take(i as int).filter(|w: Seq<char>| is_stop_word(w)).len(),
            suffixed == v.take(i as int).filter(|w: Seq<char>| is_suffixed_word(w)).len(),
            distinct == v.take(i as int).to_set().len(),
            long_words <= i,
            stop_count <= i,
            suffixed <= i,
            distinct <= i,
        decreases ws.len() - i,
    {
        let w = ws[i].as_slice();
        proof {
            assert(v[i as int] == w@);
            lemma_filter_step(v, i as int, |w: Seq<char>| is_long_word(w));
            lemma_filter_step(v, i as int, |w: Seq<char>| is_stop_word(w));
            lemma_filter_step(v, i as int, |w: Seq<char>| is_suffixed_word(w));
            lemma_to_set_step(v, i as int);
        }
        let stop = contains_chars(&stops, w);
        if stop {
            stop_count = stop_count + 1;
        } else if utf8_longer_than(w, 5) {
            long_words = long_words + 1;
        }
        if has_technical_suffix(w) {
            suffixed = suffixed + 1;
        }
        let mut seen = false;
        let mut j: usize = 0;
        while j < i
            invariant
                j <= i < ws.len(),
                v == seqs_of(ws@),
                w@ == v[i as int],
                seen == v.take(j as int).contains(v[i as int]),
            decreases i - j,
        {
            let same = same_chars(ws[j].as_slice(), w);
            proof {
                assert(v[j as int] == ws@[j as int]@);
                if same {
                    assert(v.take(j + 1)[j as int] == v[i as int]);
                }
            }
            if !seen && same {
                seen = true;
            }
            proof {
                assert(v.take(j + 1).drop_last() =~= v.take(j as int));
                if v.take(j + 1).contains(v[i as int]) && !v.take(j as int).contains(v[i as int]) {
                    assert(v[j as int] == v[i as int]);
                }
                if v.take(j as int).contains(v[i as int]) {
                    let t = choose|t: int| 0 <= t < j && #[trigger] v.take(j as int)[t] == v[i as int];
                    assert(v.take(j + 1)[t] == v[i as int]);
                }
            }
            j = j + 1;
        }
        if !seen {
            distinct = distinct + 1;
        }
        i = i + 1;
    }
    proof {
        assert(v.take(ws.len() as int) =~= v);
    }
    WordStats { words: ws.len(), long_words, stop_words: stop_count, suffixed_words: suffixed, distinct_words: distinct }
}

/// Counts the words of `text`, lower-cased first.
pub fn word_stats(text: &str) -> (st: WordStats)
    ensures
        st.of_text(text@),
{
    let lower = to_lowercase(text);
    let cs = chars_of(lower.as_str());
    let ws = split_words(cs.as_slice());
    count_words_of(&ws)
}

} // verus!
