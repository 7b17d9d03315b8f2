//! Splitting text into overlapping windows of words.
use vstd::prelude::*;
use crate::text::{strings_of, chars_of, join, seqs_of, split_words, string_of, words, is_word};

verus! {

/// The number of words in one chunk.
pub const CHUNK_WORDS: usize = 180;

/// The number of words that consecutive chunks share.
pub const CHUNK_OVERLAP: usize = 40;

/// How far apart, in words, consecutive chunks start.
pub open spec fn chunk_step() -> nat {
    (CHUNK_WORDS - CHUNK_OVERLAP) as nat
}

/// The number of chunks that `n` words make: none for no words, one for up to
/// `CHUNK_WORDS` words, and one more for each further step.
pub open spec fn chunk_count(n: nat) -> nat
    decreases n,
{
    if n == 0 {
        0
    } else if n <= CHUNK_WORDS {
        1
    } else {
        1 + chunk_count((n - chunk_step()) as nat)
    }
}

/// The index of the first word of chunk `k`.
pub open spec fn chunk_start(k: int) -> int {
    k * chunk_step()
}

/// The index just past the last word of chunk `k` among `n` words.
pub open spec fn chunk_end(k: int, n: int) -> int {
    if chunk_start(k) + CHUNK_WORDS < n {
        chunk_start(k) + CHUNK_WORDS
    } else {
        n
    }
}

/// The words of chunk `k` of `ws`.
pub open spec fn chunk_words(ws: Seq<Seq<char>>, k: int) -> Seq<Seq<char>> {
    ws.subrange(chunk_start(k), chunk_end(k, ws.len() as int))
}

/// The chunks of a text with words `ws`: each window of words joined by single spaces.
pub open spec fn chunks_of_words(ws: Seq<Seq<char>>) -> Seq<Seq<char>> {
    Seq::new(chunk_count(ws.len()), |k: int| join(chunk_words(ws, k), seq![' ']))
}

/// The chunks of the text `s`.
pub open spec fn chunks(s: Seq<char>) -> Seq<Seq<char>> {
    chunks_of_words(words(s))
}

/// Joining one more item adds the separator and the item.
pub proof fn lemma_join_extend(ws: Seq<Seq<char>>, a: int, j: int, sep: Seq<char>)
    requires
        0 <= a < j < ws.len(),
    ensures
        join(ws.subrange(a, j + 1), sep) == join(ws.subrange(a, j), sep) + sep + ws[j],
{
    assert(ws.subrange(a, j + 1).drop_last() == ws.subrange(a, j));
}

/// Joining non-empty items gives a non-empty result.
pub proof fn lemma_join_nonempty(ws: Seq<Seq<char>>, sep: Seq<char>)
    requires
        ws.len() > 0,
        forall|k: int| 0 <= k < ws.len() ==> (#[trigger] ws[k]).len() > 0,
    ensures
        join(ws, sep).len() > 0,
    decreases ws.len(),
{
    if ws.len() > 1 {
        lemma_join_nonempty(ws.drop_last(), sep);
    }
}

/// The words `ws[a..b]` joined by single spaces.
pub fn join_words(ws: &Vec<Vec<char>>, a: usize, b: usize) -> (out: Vec<char>)
    requires
        a < b <= ws.len(),
    ensures
        out@ == join(seqs_of(ws@).subrange(a as int, b as int), seq![' ']),
{
    let ghost vs = seqs_of(ws@);
    let mut out: Vec<char> = Vec::new();
    let first = &ws[a];
    let mut t: usize = 0;
    while t < first.len()
        invariant
            t <= first.len(),
            out@ == first@.take(t as int),
        decreases first.len() - t,
    {
        out.push(first[t]);
        t = t + 1;
        proof {
            assert(out@ =~= first@.take(t as int));
        }
    }
    proof {
        assert(vs.subrange(a as int, a + 1) =~= seq![vs[a as int]]);
        assert(out@ =~= join(vs.subrange(a as int, a + 1), seq![' ']));
    }
    let mut j: usize = a + 1;
    while j < b
        invariant
            a < j <= b <= ws.len(),
            vs == seqs_of(ws@),
            out@ == join(vs.subrange(a as int, j as int), seq![' ']),
        decreases b - j,
    {
        let ghost before = out@;
        out.push(' ');
        let w = &ws[j];
        let mut t: usize = 0;
        while t < w.len()
            invariant
                t <= w.len(),
                out@ == before + seq![' '] + w@.take(t as int),
            decreases w.len() - t,
        {
            out.push(w[t]);
            t = t + 1;
            proof {
                assert(out@ =~= before + seq![' '] + w@.take(t as int));
            }
        }
        proof {
            lemma_join_extend(vs, a as int, j as int, seq![' ']);
            assert(w@.take(w@.len() as int) =~= w@);
        }
        j = j + 1;
    }
    out
}

/// Splits the characters `s` into chunks of `CHUNK_WORDS` words, consecutive
/// chunks sharing `CHUNK_OVERLAP` words.
pub fn chunk_chars(s: &[char]) -> (out: Vec<Vec<char>>)
    ensures
        seqs_of(out@) == chunks(s@),
{
    let ws = split_words(s);
    let n = ws.len();
    let ghost wv = seqs_of(ws@);
    let mut out: Vec<Vec<char>> = Vec::new();
    let mut start: usize = 0;
    proof {
        assert(chunk_start(0) == 0);
    }
    loop
        invariant_except_break
            wv == seqs_of(ws@),
            wv == words(s@),
            n == ws.len(),
            start == chunk_start(out.len() as int),
            start > 0 ==> start + CHUNK_OVERLAP < n,
            start == 0 ==> out.len() == 0,
            start < n ==> out.len() < chunk_count(n as nat),
            start < n ==> chunk_count(n as nat) == out.len() + chunk_count((n - start) as nat),
            forall|k: int|
                0 <= k < out.len() ==> seqs_of(out@)[k] == join(chunk_words(wv, k), seq![' ']),
        ensures
            seqs_of(out@) =~= chunks_of_words(wv),
            wv == words(s@),
        decreases n - start,
    {
        if start >= n {
            proof {
                assert(n == 0);
                assert(chunk_count(0) == 0);
            }
            break;
        }
        let end = if n - start > CHUNK_WORDS {
            start + CHUNK_WORDS
        } else {
            n
        };
        if end - start <= CHUNK_OVERLAP && start > 0 {
            break;
        }
        let ghost k = out.len() as int;
        let chunk = join_words(&ws, start, end);
        let ghost prev = seqs_of(out@);
        let ghost cv = chunk@;
        out.push(chunk);
        proof {
            assert(seqs_of(out@) =~= prev.push(cv));
            assert(end == chunk_end(k, n as int));
            assert(seqs_of(out@)[k] == join(chunk_words(wv, k), seq![' ']));
        }
        if end >= n {
            proof {
                assert(chunk_count((n - start) as nat) == 1);
                assert(out.len() == chunk_count(n as nat));
                assert forall|j: int| 0 <= j < out.len() implies seqs_of(out@)[j]
                    == chunks_of_words(wv)[j] by {}
            }
            break;
        }
        proof {
            assert(chunk_count((n - start) as nat) == 1 + chunk_count((n - start - chunk_step()) as nat));
            assert(chunk_start(k + 1) == chunk_start(k) + chunk_step()) by (nonlinear_arith);
        }
        start = start + (CHUNK_WORDS - CHUNK_OVERLAP);
    }
    out
}

/// Splits `text` into chunks of `CHUNK_WORDS` words joined by single spaces,
/// consecutive chunks sharing `CHUNK_OVERLAP` words.
pub fn chunk_text(text: &str) -> (out: Vec<String>)
    ensures
        strings_of(out@) == chunks(text@),
{
    let cs = chars_of(text);
    let parts = chunk_chars(cs.as_slice());
    let mut out: Vec<String> = Vec::new();
    let mut i: usize = 0;
    while i < parts.len()
        invariant
            i <= parts.len(),
            seqs_of(parts@) == chunks(text@),
            strings_of(out@) == seqs_of(parts@).take(i as int),
        decreases parts.len() - i,
    {
        let ghost prev = strings_of(out@);
        let piece = string_of(parts[i].as_slice());
        let ghost pv = piece@;
        out.push(piece);
        i = i + 1;
        proof {
            assert(strings_of(out@) =~= prev.push(pv));
            assert(strings_of(out@) =~= seqs_of(parts@).take(i as int));
        }
    }
    proof {
        assert(seqs_of(parts@).take(i as int) =~= seqs_of(parts@));
    }
    out
}

} // verus!
