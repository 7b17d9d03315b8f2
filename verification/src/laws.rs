//! What holds of the library as a whole: laws over the spec functions that the
//! operations' contracts use.
use vstd::prelude::*;
use crate::document::{line_entries, outline, pages, planned_chunks, planned_upto};
use crate::numbers::{decimal, lemma_parse_decimal_roundtrip, parse_decimal};
use crate::json::{json_of_text, member, read_back, text_member, Json};
use crate::mcp::{
    action_for, first_number, hit_block, replies, SERVER_VERSION, request_model, request_view, hit_blocks, results_text, results_wanted, ActionModel, Hit, McpRequest, DATA_PREAMBLE,
    MAX_RESULTS,
};
use crate::lexicon::{is_long_word, is_stop_word, WordStats};
use crate::rank::{is_top, ranks_before};
use crate::store::{
    names, restores, restores_from, total_chunks, Document, kept_as, saved_of, revived_all, revived_from, saved_pairs, saved_text, saved_time,
    snapshot_docs, written_docs, written_expiries, SavedState, Store,
};
use crate::chunking::{
    chunk_count, chunk_end, chunk_start, chunk_step, chunk_words, chunks, lemma_join_nonempty,
    CHUNK_OVERLAP, CHUNK_WORDS,
};
use crate::text::{
    is_bom, is_white_space, is_word, join, lemma_words_are_words, lines, scan_lines, scan_words,
    strings_of, strip_bom, strip_cr, trim, trim_end, trim_start, words,
};

verus! {

/// Every chunk of a text holds at least one character.
pub proof fn law_chunks_not_empty(s: Seq<char>)
    ensures
        forall|k: int| 0 <= k < chunks(s).len() ==> (#[trigger] chunks(s)[k]).len() > 0,
{
    let ws = words(s);
    lemma_words_are_words(s);
    assert forall|k: int| 0 <= k < chunks(s).len() implies (#[trigger] chunks(s)[k]).len() > 0 by {
        lemma_chunk_bounds(ws.len(), k);
        let cw = chunk_words(ws, k);
        assert forall|j: int| 0 <= j < cw.len() implies (#[trigger] cw[j]).len() > 0 by {
            assert(cw[j] == ws[chunk_start(k) + j]);
        }
        lemma_join_nonempty(cw, seq![' ']);
    }
}

/// The chunks of `n` words start inside the text; all but the last hold
/// `CHUNK_WORDS` words, and the last ends at the text's end.
pub proof fn lemma_chunk_bounds(n: nat, k: int)
    requires
        0 <= k < chunk_count(n),
    ensures
        0 <= chunk_start(k) < chunk_end(k, n as int) <= n,
        k + 1 < chunk_count(n) ==> chunk_start(k) + CHUNK_WORDS < n,
        k + 1 == chunk_count(n) ==> chunk_end(k, n as int) == n,
    decreases n,
{
    if n <= CHUNK_WORDS {
        assert(k == 0);
        assert(chunk_start(0) == 0);
    } else {
        let m = (n - chunk_step()) as nat;
        assert(chunk_count(n) == 1 + chunk_count(m));
        if k == 0 {
            assert(chunk_start(0) == 0);
            if chunk_count(m) == 0 {
                assert(m == 0);
            }
        } else {
            lemma_chunk_bounds(m, k - 1);
            assert(chunk_start(k) == chunk_start(k - 1) + chunk_step()) by (nonlinear_arith);
        }
    }
}

/// No word is lost: every word of a text lies in some chunk.
pub proof fn law_every_word_in_a_chunk(s: Seq<char>, i: int)
    requires
        0 <= i < words(s).len(),
    ensures
        exists|k: int|
            0 <= k < chunks(s).len() && #[trigger] chunk_start(k) <= i < chunk_end(k, words(s).len() as int),
{
    let n = words(s).len();
    lemma_count_positive(n);
    let last = chunk_count(n) - 1;
    lemma_chunk_bounds(n, last);
    if i >= chunk_start(last) {
        assert(chunk_start(last) <= i < chunk_end(last, n as int));
    } else {
        let k = i / (chunk_step() as int);
        assert(k * chunk_step() <= i < k * chunk_step() + chunk_step()) by (nonlinear_arith)
            requires
                k == i / (chunk_step() as int),
                i >= 0,
        ;
        assert(chunk_start(k) == k * chunk_step());
        assert(k < last) by (nonlinear_arith)
            requires
                k * chunk_step() <= i,
                i < last * chunk_step(),
                chunk_step() > 0,
        ;
        lemma_chunk_bounds(n, k);
        assert(chunk_start(k) <= i < chunk_end(k, n as int));
    }
}

/// Some words make at least one chunk.
pub proof fn lemma_count_positive(n: nat)
    requires
        n > 0,
    ensures
        chunk_count(n) >= 1,
{
}

/// A text of one to `CHUNK_WORDS` words is one chunk: its words joined by single spaces.
pub proof fn law_short_text_one_chunk(s: Seq<char>)
    requires
        0 < words(s).len() <= CHUNK_WORDS,
    ensures
        chunks(s) == seq![join(words(s), seq![' '])],
{
    let ws = words(s);
    assert(chunk_start(0) == 0);
    assert(chunk_words(ws, 0) =~= ws);
    assert(chunks(s) =~= seq![join(words(s), seq![' '])]);
}

/// A text of more than `CHUNK_WORDS` words makes more than one chunk.
pub proof fn law_long_text_many_chunks(s: Seq<char>)
    requires
        words(s).len() > CHUNK_WORDS,
    ensures
        chunks(s).len() >= 2,
{
    lemma_count_positive((words(s).len() - chunk_step()) as nat);
}

/// A text without words makes no chunks.
pub proof fn law_no_words_no_chunks(s: Seq<char>)
    requires
        words(s).len() == 0,
    ensures
        chunks(s).len() == 0,
{
}

/// A text that trims to more than nothing holds a character that is not white space.
proof fn lemma_trimmed_has_ink(s: Seq<char>)
    requires
        trim_start(s).len() > 0,
    ensures
        exists|i: int| 0 <= i < s.len() && !is_white_space(#[trigger] s[i]),
    decreases s.len(),
{
    if is_white_space(s[0]) {
        lemma_trimmed_has_ink(s.drop_first());
        let i = choose|i: int| 0 <= i < s.drop_first().len() && !is_white_space(#[trigger] s.drop_first()[i]);
        assert(s[i + 1] == s.drop_first()[i]);
    } else {
        assert(!is_white_space(s[0]));
    }
}

/// A text that holds a character that is not white space has a word.
proof fn lemma_ink_makes_a_word(s: Seq<char>)
    requires
        exists|i: int| 0 <= i < s.len() && !is_white_space(#[trigger] s[i]),
    ensures
        scan_words(s).0.len() > 0 || scan_words(s).1.len() > 0,
        words(s).len() > 0,
    decreases s.len(),
{
    let i = choose|i: int| 0 <= i < s.len() && !is_white_space(#[trigger] s[i]);
    if i < s.len() - 1 {
        assert(s.drop_last()[i] == s[i]);
        lemma_ink_makes_a_word(s.drop_last());
    }
}

/// A line gives as many chunk entries as its words make chunks.
proof fn lemma_line_entries_count(line: Seq<char>)
    ensures
        line_entries(line).len() == chunk_count(words(line).len()),
{
    if chunks(line).len() == 0 && trim(line).len() > 0 {
        if trim_start(line).len() == 0 {
            assert(trim_end(trim_start(line)).len() == 0);
        }
        lemma_trimmed_has_ink(line);
        lemma_ink_makes_a_word(line);
        lemma_chunk_count_positive(words(line).len());
    }
}

/// A positive number of words makes at least one chunk.
proof fn lemma_chunk_count_positive(n: nat)
    requires
        n > 0,
    ensures
        chunk_count(n) >= 1,
{
}

/// The number of chunks that the words of the first `n` lines make, line by line.
pub open spec fn chunks_of_lines(ls: Seq<Seq<char>>, n: int) -> nat
    decreases n,
{
    if n <= 0 {
        0
    } else {
        chunks_of_lines(ls, n - 1) + chunk_count(words(ls[n - 1]).len())
    }
}

proof fn lemma_planned_upto_len(ls: Seq<Seq<char>>, n: int)
    requires
        0 <= n <= ls.len(),
    ensures
        planned_upto(ls, n).len() == chunks_of_lines(ls, n),
    decreases n,
{
    if n > 0 {
        lemma_planned_upto_len(ls, n - 1);
        lemma_line_entries_count(ls[n - 1]);
    }
}

/// The number of chunks of a text, in closed form: each line makes one chunk of up
/// to `CHUNK_WORDS` words and one more for each further `chunk_step()` words; a text
/// whose lines make none is one chunk.
pub proof fn law_chunk_count_closed_form(content: Seq<char>)
    ensures
        planned_chunks(content).len() == if chunks_of_lines(pages(content), pages(content).len() as int) == 0 {
            1
        } else {
            chunks_of_lines(pages(content), pages(content).len() as int)
        },
        forall|n: nat|
            #[trigger] chunk_count(n) == if n == 0 {
                0
            } else if n <= CHUNK_WORDS {
                1
            } else {
                1 + (n - CHUNK_OVERLAP - 1) / (chunk_step() as int)
            },
{
    lemma_planned_upto_len(pages(content), pages(content).len() as int);
    assert forall|n: nat|
        #[trigger] chunk_count(n) == if n == 0 {
            0
        } else if n <= CHUNK_WORDS {
            1
        } else {
            1 + (n - CHUNK_OVERLAP - 1) / (chunk_step() as int)
        } by {
        lemma_chunk_count_closed(n);
    }
}

/// The number of chunks that `n` words make, in closed form.
proof fn lemma_chunk_count_closed(n: nat)
    ensures
        n > CHUNK_WORDS ==> chunk_count(n) == 1 + (n - CHUNK_OVERLAP - 1) / (chunk_step() as int),
    decreases n,
{
    if n > CHUNK_WORDS {
        let m = (n - chunk_step()) as nat;
        assert(chunk_count(n) == 1 + chunk_count(m));
        if m > CHUNK_WORDS {
            lemma_chunk_count_closed(m);
        }
    }
}

/// Consecutive chunks share `CHUNK_OVERLAP` words: the last ones of a chunk are the
/// first ones of the next.
pub proof fn law_chunks_overlap(s: Seq<char>, k: int)
    requires
        0 <= k,
        k + 1 < chunks(s).len(),
    ensures
        chunk_words(words(s), k).skip(chunk_step() as int) == chunk_words(words(s), k + 1).take(
            CHUNK_OVERLAP as int,
        ),
        chunk_words(words(s), k).len() == CHUNK_WORDS,
{
    let ws = words(s);
    let n = ws.len();
    lemma_chunk_bounds(n, k);
    lemma_chunk_bounds(n, k + 1);
    assert(chunk_start(k + 1) == chunk_start(k) + chunk_step()) by (nonlinear_arith);
    assert(chunk_words(ws, k).skip(chunk_step() as int) =~= chunk_words(ws, k + 1).take(
        CHUNK_OVERLAP as int,
    ));
}


proof fn lemma_scan_words_append(x: Seq<char>, w: Seq<char>)
    requires
        forall|i: int| 0 <= i < w.len() ==> !is_white_space(#[trigger] w[i]),
    ensures
        scan_words(x + w) == (scan_words(x).0, scan_words(x).1 + w),
    decreases w.len(),
{
    if w.len() == 0 {
        assert(x + w =~= x);
        assert(scan_words(x).1 + w =~= scan_words(x).1);
    } else {
        let w0 = w.drop_last();
        lemma_scan_words_append(x, w0);
        assert((x + w).drop_last() =~= x + w0);
        assert((x + w).last() == w.last());
        assert(scan_words(x).1 + w0 + seq![w.last()] =~= scan_words(x).1 + w);
        assert((scan_words(x).1 + w0).push(w.last()) =~= scan_words(x).1 + w);
    }
}

proof fn lemma_scan_words_join(ws: Seq<Seq<char>>)
    requires
        ws.len() > 0,
        forall|k: int| 0 <= k < ws.len() ==> is_word(#[trigger] ws[k]),
    ensures
        scan_words(join(ws, seq![' '])) == (ws.drop_last(), ws.last()),
    decreases ws.len(),
{
    if ws.len() == 1 {
        assert(is_word(ws[0]));
        lemma_scan_words_append(Seq::<char>::empty(), ws[0]);
        assert(Seq::<char>::empty() + ws[0] =~= ws[0]);
        assert(scan_words(Seq::<char>::empty()) == (Seq::<Seq<char>>::empty(), Seq::<char>::empty()));
        assert(Seq::<char>::empty() + ws[0] =~= ws[0]);
        assert(ws.drop_last() =~= Seq::<Seq<char>>::empty());
    } else {
        let prev = ws.drop_last();
        assert forall|k: int| 0 <= k < prev.len() implies is_word(#[trigger] prev[k]) by {
            assert(prev[k] == ws[k]);
        }
        lemma_scan_words_join(prev);
        let a = join(prev, seq![' ']);
        let b = a + seq![' '];
        assert(b.drop_last() =~= a);
        assert(b.last() == ' ');
        assert(is_word(prev.last()));
        assert(scan_words(b) == (prev.drop_last().push(prev.last()), Seq::<char>::empty()));
        assert(prev.drop_last().push(prev.last()) =~= prev);
        assert(is_word(ws.last()));
        lemma_scan_words_append(b, ws.last());
        assert(Seq::<char>::empty() + ws.last() =~= ws.last());
    }
}

/// A chunk splits back into exactly its words: joining words by single spaces and
/// splitting the result gives the words back.
pub proof fn law_words_of_joined_words(ws: Seq<Seq<char>>)
    requires
        forall|k: int| 0 <= k < ws.len() ==> is_word(#[trigger] ws[k]),
    ensures
        words(join(ws, seq![' '])) == ws,
{
    if ws.len() > 0 {
        lemma_scan_words_join(ws);
        assert(is_word(ws.last()));
        assert(ws.drop_last().push(ws.last()) =~= ws);
    } else {
        assert(join(ws, seq![' ']) == Seq::<char>::empty());
    }
}

/// Each chunk of a text holds, split into words, exactly its window of the text's
/// words, and so at most `CHUNK_WORDS` of them.
pub proof fn law_chunk_words(s: Seq<char>, k: int)
    requires
        0 <= k < chunks(s).len(),
    ensures
        words(chunks(s)[k]) == chunk_words(words(s), k),
        words(chunks(s)[k]).len() <= CHUNK_WORDS,
{
    let ws = words(s);
    lemma_words_are_words(s);
    lemma_chunk_bounds(ws.len(), k);
    let cw = chunk_words(ws, k);
    assert forall|j: int| 0 <= j < cw.len() implies is_word(#[trigger] cw[j]) by {
        assert(cw[j] == ws[chunk_start(k) + j]);
    }
    law_words_of_joined_words(cw);
}


/// Lines that survive being written out joined by line feeds and read back: none holds
/// a line feed, none but the last ends with a carriage return, and the last is not
/// empty.
pub open spec fn line_safe(ls: Seq<Seq<char>>) -> bool {
    &&& forall|i: int, j: int| 0 <= i < ls.len() && 0 <= j < ls[i].len() ==> #[trigger] ls[i][j] != '\n'
    &&& forall|i: int| 0 <= i < ls.len() - 1 ==> strip_cr(#[trigger] ls[i]) == ls[i]
    &&& ls.len() > 0 ==> ls.last().len() > 0
}

proof fn lemma_scan_lines_append(x: Seq<char>, w: Seq<char>)
    requires
        forall|i: int| 0 <= i < w.len() ==> #[trigger] w[i] != '\n',
    ensures
        scan_lines(x + w) == (scan_lines(x).0, scan_lines(x).1 + w),
    decreases w.len(),
{
    if w.len() == 0 {
        assert(x + w =~= x);
        assert(scan_lines(x).1 + w =~= scan_lines(x).1);
    } else {
        let w0 = w.drop_last();
        lemma_scan_lines_append(x, w0);
        assert((x + w).drop_last() =~= x + w0);
        assert((x + w).last() == w.last());
        assert((scan_lines(x).1 + w0).push(w.last()) =~= scan_lines(x).1 + w);
    }
}

proof fn lemma_scan_lines_join(ls: Seq<Seq<char>>)
    requires
        ls.len() > 0,
        line_safe(ls),
    ensures
        scan_lines(join(ls, seq!['\n'])) == (ls.drop_last(), ls.last()),
{
    assert forall|i: int| 0 <= i < ls.last().len() implies #[trigger] ls.last()[i] != '\n' by {
        assert(ls.last()[i] == ls[ls.len() - 1][i]);
    }
    if ls.len() == 1 {
        lemma_scan_lines_append(Seq::<char>::empty(), ls[0]);
        assert(Seq::<char>::empty() + ls[0] =~= ls[0]);
        assert(ls.drop_last() =~= Seq::<Seq<char>>::empty());
    } else {
        lemma_scan_lines_join_prefix(ls);
    }
}

proof fn lemma_scan_lines_join_prefix(ls: Seq<Seq<char>>)
    requires
        ls.len() > 1,
        line_safe(ls),
    ensures
        scan_lines(join(ls, seq!['\n'])) == (ls.drop_last(), ls.last()),
{
    let prev = ls.drop_last();
    let a = join(prev, seq!['\n']);
    let b = a + seq!['\n'];
    lemma_scan_lines_prefix(prev);
    assert(b.drop_last() =~= a);
    assert(b.last() == '\n');
    assert(prev.last() == ls[ls.len() - 2]);
    assert(strip_cr(prev.last()) == prev.last());
    assert(scan_lines(b) == (prev.drop_last().push(prev.last()), Seq::<char>::empty()));
    assert(prev.drop_last().push(prev.last()) =~= prev);
    assert forall|i: int| 0 <= i < ls.last().len() implies #[trigger] ls.last()[i] != '\n' by {
        assert(ls.last()[i] == ls[ls.len() - 1][i]);
    }
    lemma_scan_lines_append(b, ls.last());
    assert(Seq::<char>::empty() + ls.last() =~= ls.last());
}

/// Scanning lines joined by line feeds, none of them ending with a carriage return,
/// finishes all but the last of them and is reading the last.
proof fn lemma_scan_lines_prefix(ps: Seq<Seq<char>>)
    requires
        ps.len() > 0,
        forall|i: int, j: int| 0 <= i < ps.len() && 0 <= j < ps[i].len() ==> #[trigger] ps[i][j] != '\n',
        forall|i: int| 0 <= i < ps.len() ==> strip_cr(#[trigger] ps[i]) == ps[i],
    ensures
        scan_lines(join(ps, seq!['\n'])) == (ps.drop_last(), ps.last()),
    decreases ps.len(),
{
    assert forall|i: int| 0 <= i < ps.last().len() implies #[trigger] ps.last()[i] != '\n' by {
        assert(ps.last()[i] == ps[ps.len() - 1][i]);
    }
    if ps.len() == 1 {
        lemma_scan_lines_append(Seq::<char>::empty(), ps[0]);
        assert(Seq::<char>::empty() + ps[0] =~= ps[0]);
        assert(ps.drop_last() =~= Seq::<Seq<char>>::empty());
    } else {
        let prev = ps.drop_last();
        assert forall|i: int, j: int| 0 <= i < prev.len() && 0 <= j < prev[i].len() implies #[trigger] prev[i][j] != '\n' by {
            assert(prev[i] == ps[i]);
        }
        assert forall|i: int| 0 <= i < prev.len() implies strip_cr(#[trigger] prev[i]) == prev[i] by {
            assert(prev[i] == ps[i]);
        }
        lemma_scan_lines_prefix(prev);
        let a = join(prev, seq!['\n']);
        let b = a + seq!['\n'];
        assert(b.drop_last() =~= a);
        assert(b.last() == '\n');
        assert(strip_cr(prev.last()) == prev.last());
        assert(scan_lines(b) == (prev.drop_last().push(prev.last()), Seq::<char>::empty()));
        assert(prev.drop_last().push(prev.last()) =~= prev);
        lemma_scan_lines_append(b, ps.last());
        assert(Seq::<char>::empty() + ps.last() =~= ps.last());
    }
}

/// Lines written out joined by line feeds read back as the same lines, where they are
/// line-safe.
pub proof fn law_lines_of_joined_lines(ls: Seq<Seq<char>>)
    requires
        line_safe(ls),
    ensures
        lines(join(ls, seq!['\n'])) == ls,
{
    if ls.len() > 0 {
        lemma_scan_lines_join(ls);
        assert(ls.drop_last().push(ls.last()) =~= ls);
    } else {
        assert(join(ls, seq!['\n']) == Seq::<char>::empty());
    }
}


/// Every ingestion gives at least one chunk: a text without words is kept whole.
pub proof fn law_ingest_gives_a_chunk(content: Seq<char>)
    ensures
        planned_chunks(content).len() >= 1,
{
}

/// A line's entries, where it has any, are its chunks.
proof fn lemma_line_entries_are_chunks(line: Seq<char>)
    requires
        line_entries(line).len() > 0,
    ensures
        line_entries(line) == chunks(line),
{
    lemma_line_entries_count(line);
}

proof fn lemma_planned_from_lines(ls: Seq<Seq<char>>, n: int, k: int)
    requires
        0 <= n <= ls.len(),
        0 <= k < planned_upto(ls, n).len(),
    ensures
        1 <= planned_upto(ls, n)[k].0 <= n,
        chunks(ls[planned_upto(ls, n)[k].0 - 1]).contains(planned_upto(ls, n)[k].1),
    decreases n,
{
    let pre = planned_upto(ls, n - 1);
    let le = line_entries(ls[n - 1]);
    if k < pre.len() {
        lemma_planned_from_lines(ls, n - 1, k);
        assert(planned_upto(ls, n)[k] == pre[k]);
    } else {
        let j = k - pre.len();
        assert(planned_upto(ls, n)[k] == (n, le[j]));
        lemma_line_entries_are_chunks(ls[n - 1]);
        assert(chunks(ls[n - 1])[j] == le[j]);
    }
}

/// Every chunk of a text comes from one of its lines, and is a chunk of that line: a
/// window of at most `CHUNK_WORDS` of its words joined by single spaces (see
/// `law_chunk_words`); only a text whose lines make no chunk is one chunk, its whole
/// body, on line 1.
pub proof fn law_chunks_come_from_their_lines(content: Seq<char>, k: int)
    requires
        0 <= k < planned_chunks(content).len(),
    ensures
        planned_upto(pages(content), pages(content).len() as int).len() > 0 ==> {
            &&& 1 <= planned_chunks(content)[k].0 <= pages(content).len()
            &&& chunks(pages(content)[planned_chunks(content)[k].0 - 1]).contains(planned_chunks(content)[k].1)
        },
        planned_upto(pages(content), pages(content).len() as int).len() == 0 ==> planned_chunks(content)[k] == (
        1int,
        crate::document::body(content),
        ),
{
    let ls = pages(content);
    if planned_upto(ls, ls.len() as int).len() > 0 {
        lemma_planned_from_lines(ls, ls.len() as int, k);
    }
}

/// Two document lists whose chunk counts agree have the same total.
proof fn lemma_total_same(a: Seq<Document>, b: Seq<Document>)
    requires
        a.len() == b.len(),
        forall|i: int| 0 <= i < a.len() ==> (#[trigger] a[i]).chunks@.len() == b[i].chunks@.len(),
    ensures
        total_chunks(a) == total_chunks(b),
    decreases a.len(),
{
    if a.len() > 0 {
        assert forall|i: int| 0 <= i < a.drop_last().len() implies (#[trigger] a.drop_last()[i]).chunks@.len()
            == b.drop_last()[i].chunks@.len() by {
            assert(a.drop_last()[i] == a[i]);
            assert(b.drop_last()[i] == b[i]);
        }
        lemma_total_same(a.drop_last(), b.drop_last());
    }
}

/// Two document lists whose chunk counts agree but at `k` have totals that differ by
/// the difference at `k`.
proof fn lemma_total_update(a: Seq<Document>, b: Seq<Document>, k: int)
    requires
        a.len() == b.len(),
        0 <= k < a.len(),
        forall|i: int| 0 <= i < a.len() && i != k ==> (#[trigger] a[i]).chunks@.len() == b[i].chunks@.len(),
    ensures
        total_chunks(b) + a[k].chunks@.len() == total_chunks(a) + b[k].chunks@.len(),
    decreases a.len(),
{
    assert forall|i: int| 0 <= i < a.drop_last().len() && i != k implies (#[trigger] a.drop_last()[i]).chunks@.len()
        == b.drop_last()[i].chunks@.len() by {
        assert(a.drop_last()[i] == a[i]);
        assert(b.drop_last()[i] == b[i]);
    }
    if k == a.len() - 1 {
        lemma_total_same(a.drop_last(), b.drop_last());
    } else {
        lemma_total_update(a.drop_last(), b.drop_last(), k);
        assert(a.drop_last()[k] == a[k]);
        assert(b.drop_last()[k] == b[k]);
    }
}

/// In a well-formed store, the document at each place is the one stored under its name.
proof fn lemma_doc_at(s: Store, i: int)
    requires
        s.wf(),
        0 <= i < s.docs().len(),
    ensures
        s.doc(s.ids()[i]) == s.docs()[i],
{
    let x = s.ids()[i];
    assert(s.ids().contains(x));
    let t = s.ids().index_of(x);
    assert(s.ids()[t] == x);
}

/// Ingesting a text under a name changes the store's chunk total by the text's chunks,
/// less those of the document it replaces, if any.
pub proof fn law_ingest_total(before: Store, after: Store, id: Seq<char>, content: Seq<char>, max_chars: nat)
    requires
        before.wf(),
        after.wf(),
        after.ids() == if before.has(id) {
            before.ids()
        } else {
            before.ids().push(id)
        },
        after.doc(id).records(id, content, max_chars),
        forall|x: Seq<char>| x != id && #[trigger] before.has(x) ==> after.doc(x) == before.doc(x),
    ensures
        total_chunks(after.docs()) + (if before.has(id) {
            before.doc(id).chunks@.len()
        } else {
            0
        }) == total_chunks(before.docs()) + planned_chunks(content).len(),
{
    let a = before.docs();
    let b = after.docs();
    let n = a.len() as int;
    assert(after.has(id)) by {
        if before.has(id) {
        } else {
            assert(after.ids()[n] == id);
        }
    }
    assert forall|i: int| 0 <= i < n && before.ids()[i] != id implies (#[trigger] a[i]).chunks@.len()
        == b[i].chunks@.len() by {
        let x = before.ids()[i];
        assert(after.ids()[i] == x);
        assert(before.has(x));
        lemma_doc_at(before, i);
        lemma_doc_at(after, i);
    }
    if before.has(id) {
        let k = before.ids().index_of(id);
        assert(before.ids()[k] == id);
        lemma_doc_at(before, k);
        lemma_doc_at(after, k);
        assert forall|i: int| 0 <= i < n && i != k implies (#[trigger] a[i]).chunks@.len() == b[i].chunks@.len() by {
            assert(before.ids()[i] != id);
        }
        lemma_total_update(a, b, k);
    } else {
        assert(b.len() == n + 1);
        lemma_doc_at(after, n);
        assert forall|i: int| 0 <= i < n implies (#[trigger] a[i]).chunks@.len() == b.drop_last()[i].chunks@.len() by {
            assert(b.drop_last()[i] == b[i]);
            assert(before.ids()[i] != id) by {
                assert(before.ids()[i] == after.ids()[i]);
                assert(after.ids()[n] == id);
            }
        }
        lemma_total_same(a, b.drop_last());
    }
}

/// A leading byte order mark changes nothing: a text that opens with one gives the
/// same lines, outline and chunks as the same text without it (where that text does
/// not itself open with another).
pub proof fn law_byte_order_mark_is_ignored(c: Seq<char>)
    requires
        !(c.len() > 0 && is_bom(c[0])),
    ensures
        pages(seq!['\u{feff}'] + c) == pages(c),
        outline(seq!['\u{feff}'] + c) == outline(c),
        planned_chunks(seq!['\u{feff}'] + c) == planned_chunks(c),
{
    let m = seq!['\u{feff}'] + c;
    assert(m.drop_first() =~= c);
    assert(crate::document::body(m) == c);
    assert(crate::document::body(c) == c);
}

/// Two texts with the same lines make documents with the same outline, and, where
/// their lines hold any chunk, the same chunks.
pub proof fn law_same_pages_same_document(c1: Seq<char>, c2: Seq<char>)
    requires
        pages(c1) == pages(c2),
    ensures
        outline(c1) == outline(c2),
        planned_upto(pages(c1), pages(c1).len() as int).len() > 0 ==> planned_chunks(c1)
            == planned_chunks(c2),
{
}

/// A document's lines written out joined by line feeds read back as the same lines,
/// where they are line-safe and the text does not open with a byte order mark.
pub proof fn law_kept_text_reads_back(ls: Seq<Seq<char>>)
    requires
        line_safe(ls),
        ls.len() > 0 && ls[0].len() > 0 ==> !is_bom(ls[0][0]),
    ensures
        pages(join(ls, seq!['\n'])) == ls,
{
    let t = join(ls, seq!['\n']);
    if ls.len() > 0 {
        lemma_join_head(ls, seq!['\n']);
        if ls[0].len() > 0 {
            assert(t[0] == ls[0].take(ls[0].len() as int)[0]);
        } else if ls.len() > 1 {
            assert(t[0] == '\n');
        } else {
            assert(ls.last() == ls[0]);
        }
    }
    assert(strip_bom(t) == t);
    law_lines_of_joined_lines(ls);
}

/// The first item of a join opens it, followed by the separator where more follow.
proof fn lemma_join_head(ls: Seq<Seq<char>>, sep: Seq<char>)
    requires
        ls.len() > 0,
        sep.len() > 0,
    ensures
        join(ls, sep).len() >= ls[0].len(),
        join(ls, sep).take(ls[0].len() as int) == ls[0],
        ls.len() > 1 ==> join(ls, sep).len() > ls[0].len() && join(ls, sep)[ls[0].len() as int] == sep[0],
    decreases ls.len(),
{
    if ls.len() > 1 {
        let pre = ls.drop_last();
        lemma_join_head(pre, sep);
        let a = join(pre, sep);
        let t = join(ls, sep);
        assert(t == a + sep + ls.last());
        assert(pre[0] == ls[0]);
        assert(t.take(ls[0].len() as int) =~= a.take(ls[0].len() as int));
        if pre.len() == 1 {
            assert(a == ls[0]);
            assert(t[ls[0].len() as int] == sep[0]);
        } else {
            assert(t[ls[0].len() as int] == a[ls[0].len() as int]);
        }
    } else {
        assert(join(ls, sep) == ls[0]);
        assert(ls[0].take(ls[0].len() as int) =~= ls[0]);
    }
}

/// Each document that expiry entries bring back is named by an unexpired entry and
/// comes with the text saved for it.
proof fn lemma_revived_members(es: Seq<(Seq<char>, Option<Seq<char>>)>, ds: Seq<(Seq<char>, Option<Seq<char>>)>, now: u64)
    ensures
        forall|j: int|
            0 <= j < revived_all(es, ds, now).len() ==> exists|i: int|
                0 <= i < es.len() && (#[trigger] es[i]).1 == Some(
                    (#[trigger] revived_all(es, ds, now)[j]).0,
                ) && saved_time(es[i].0) >= now && saved_text(ds, revived_all(es, ds, now)[j].0)
                    == Some(revived_all(es, ds, now)[j].1),
    decreases es.len(),
{
    if es.len() > 0 {
        let pre = es.drop_last();
        lemma_revived_members(pre, ds, now);
        let r0 = revived_all(pre, ds, now);
        let r = revived_all(es, ds, now);
        assert forall|j: int| 0 <= j < r.len() implies exists|i: int|
            0 <= i < es.len() && (#[trigger] es[i]).1 == Some((#[trigger] r[j]).0) && saved_time(es[i].0) >= now
                && saved_text(ds, r[j].0) == Some(r[j].1) by {
            if j < r0.len() {
                assert(r[j] == r0[j]);
                let i = choose|i: int|
                    0 <= i < pre.len() && (#[trigger] pre[i]).1 == Some((#[trigger] r0[j]).0) && saved_time(pre[i].0)
                        >= now && saved_text(ds, r0[j].0) == Some(r0[j].1);
                assert(es[i] == pre[i]);
            } else {
                let i = es.len() - 1;
                assert(es[i] == es.last());
            }
        }
    }
}

/// Every unexpired entry that names a document with a saved text brings it back.
proof fn lemma_revived_complete(
    es: Seq<(Seq<char>, Option<Seq<char>>)>,
    ds: Seq<(Seq<char>, Option<Seq<char>>)>,
    now: u64,
    i: int,
    id: Seq<char>,
)
    requires
        0 <= i < es.len(),
        es[i].1 == Some(id),
        saved_time(es[i].0) >= now,
        saved_text(ds, id) is Some,
    ensures
        names(revived_all(es, ds, now), id),
    decreases es.len(),
{
    let pre = es.drop_last();
    let r0 = revived_all(pre, ds, now);
    let r = revived_all(es, ds, now);
    if i < es.len() - 1 {
        assert(pre[i] == es[i]);
        lemma_revived_complete(pre, ds, now, i, id);
        let j = choose|j: int| 0 <= j < r0.len() && (#[trigger] r0[j]).0 == id;
        assert(r[j] == r0[j]);
    } else {
        assert(es.last() == es[i]);
        assert(r[r0.len() as int].0 == id);
    }
}

/// Whether `saved` is what a store with the documents `docs`, the expiry entries
/// `exps` and the current document `current` writes out, documents and expiry
/// entries in any order: each name and text as a string, each expiry time as its
/// decimal numeral.
pub open spec fn saved_from(
    saved: SavedState,
    docs: Seq<(Seq<char>, Seq<char>)>,
    exps: Seq<(u64, Seq<char>)>,
    current: Option<Seq<char>>,
) -> bool {
    kept_as(
        (saved_pairs(saved.expiries@), saved_pairs(saved.docs@), crate::mcp::opt_view(saved.current)),
        docs,
        exps,
        current,
    )
}

/// The kept state that `saved` holds, as pairs.
pub open spec fn pairs_in(saved: SavedState) -> (Seq<(Seq<char>, Option<Seq<char>>)>, Seq<(Seq<char>, Option<Seq<char>>)>, Option<Seq<char>>) {
    (saved_pairs(saved.expiries@), saved_pairs(saved.docs@), crate::mcp::opt_view(saved.current))
}

/// The joined lines of the document that `s` holds under `id`.
pub open spec fn kept_text(s: Store, id: Seq<char>) -> Seq<char> {
    join(strings_of(s.doc(id).pages@), seq!['\n'])
}

/// Where every entry of `ds` named `x` holds `v`, and one does, the text saved for
/// `x` is `v`.
proof fn lemma_saved_text_uniform(ds: Seq<(Seq<char>, Option<Seq<char>>)>, x: Seq<char>, v: Option<Seq<char>>)
    requires
        exists|i: int| 0 <= i < ds.len() && (#[trigger] ds[i]).0 == x,
        forall|i: int| 0 <= i < ds.len() && (#[trigger] ds[i]).0 == x ==> ds[i].1 == v,
    ensures
        saved_text(ds, x) == v,
    decreases ds.len(),
{
    if ds[0].0 != x {
        let i = choose|i: int| 0 <= i < ds.len() && (#[trigger] ds[i]).0 == x;
        let rest = ds.drop_first();
        assert(rest[i - 1] == ds[i]);
        assert forall|j: int| 0 <= j < rest.len() && (#[trigger] rest[j]).0 == x implies rest[j].1 == v by {
            assert(rest[j] == ds[j + 1]);
        }
        lemma_saved_text_uniform(rest, x, v);
    }
}

/// The text that a store writes out for each stored document, in any order, is its
/// joined lines.
proof fn lemma_saved_text_of_stored(
    s: Store,
    p: (Seq<(Seq<char>, Option<Seq<char>>)>, Seq<(Seq<char>, Option<Seq<char>>)>, Option<Seq<char>>),
)
    requires
        s.wf(),
        kept_as(p, snapshot_docs(s.docs()), s.expiry_entries(), s.current_id()),
    ensures
        forall|x: Seq<char>| s.has(x) ==> saved_text(p.1, x) == Some(#[trigger] kept_text(s, x)),
{
    let ds = p.1;
    let wd = written_docs(snapshot_docs(s.docs()));
    assert forall|x: Seq<char>| s.has(x) implies saved_text(ds, x) == Some(#[trigger] kept_text(s, x)) by {
        let k = s.ids().index_of(x);
        assert(s.ids()[k] == x);
        assert(wd[k] == (x, Some(kept_text(s, x))));
        assert(ds.contains(wd[k]));
        let i0 = choose|i: int| 0 <= i < ds.len() && ds[i] == wd[k];
        assert(ds[i0].0 == x);
        assert forall|i: int| 0 <= i < ds.len() && (#[trigger] ds[i]).0 == x implies ds[i].1 == Some(kept_text(s, x)) by {
            assert(wd.contains(ds[i]));
            let m = choose|m: int| 0 <= m < wd.len() && wd[m] == ds[i];
            assert(s.ids()[m] == x);
            assert(m == k);
        }
        lemma_saved_text_uniform(ds, x, Some(kept_text(s, x)));
    }
}

/// What a store writes out brings back, at the time `now`, exactly the documents
/// whose expiry time is not before `now`, each with its lines joined by line feeds.
pub proof fn law_restore_brings_back_unexpired(s: Store, saved: SavedState, now: u64)
    requires
        s.wf(),
        saved_from(saved, snapshot_docs(s.docs()), s.expiry_entries(), s.current_id()),
    ensures
        forall|x: Seq<char>|
            #[trigger] names(revived_from(saved, now), x) <==> exists|k: int|
                0 <= k < s.expiry_entries().len() && (#[trigger] s.expiry_entries()[k]).1 == x
                    && s.expiry_entries()[k].0 >= now,
        forall|j: int|
            0 <= j < revived_from(saved, now).len() ==> (#[trigger] revived_from(saved, now)[j]).1
                == kept_text(s, revived_from(saved, now)[j].0),
{
    let p = pairs_in(saved);
    lemma_restore_pairs(s, p, now);
    assert(revived_from(saved, now) == revived_all(p.0, p.1, now));
}

/// Kept state read back as pairs brings back, at the time `now`, exactly the
/// documents whose expiry time is not before `now`, each with its joined lines.
proof fn lemma_restore_pairs(
    s: Store,
    p: (Seq<(Seq<char>, Option<Seq<char>>)>, Seq<(Seq<char>, Option<Seq<char>>)>, Option<Seq<char>>),
    now: u64,
)
    requires
        s.wf(),
        kept_as(p, snapshot_docs(s.docs()), s.expiry_entries(), s.current_id()),
    ensures
        forall|x: Seq<char>|
            #[trigger] names(revived_all(p.0, p.1, now), x) <==> exists|k: int|
                0 <= k < s.expiry_entries().len() && (#[trigger] s.expiry_entries()[k]).1 == x
                    && s.expiry_entries()[k].0 >= now,
        forall|j: int|
            0 <= j < revived_all(p.0, p.1, now).len() ==> (#[trigger] revived_all(p.0, p.1, now)[j]).1
                == kept_text(s, revived_all(p.0, p.1, now)[j].0),
{
    let es = p.0;
    let ds = p.1;
    let ex = s.expiry_entries();
    let we = written_expiries(ex);
    let r = revived_all(es, ds, now);
    lemma_saved_text_of_stored(s, p);
    lemma_revived_members(es, ds, now);
    assert forall|x: Seq<char>| #[trigger] names(r, x) implies exists|k: int|
        0 <= k < ex.len() && (#[trigger] ex[k]).1 == x && ex[k].0 >= now by {
        let j = choose|j: int| 0 <= j < r.len() && (#[trigger] r[j]).0 == x;
        let i = choose|i: int|
            0 <= i < es.len() && (#[trigger] es[i]).1 == Some((#[trigger] r[j]).0) && saved_time(es[i].0) >= now
                && saved_text(ds, r[j].0) == Some(r[j].1);
        assert(we.contains(es[i]));
        let k = choose|k: int| 0 <= k < we.len() && we[k] == es[i];
        assert(we[k] == (decimal(ex[k].0 as nat), Some(ex[k].1)));
        lemma_parse_decimal_roundtrip(ex[k].0);
        assert(saved_time(es[i].0) == ex[k].0);
    }
    assert forall|x: Seq<char>| (exists|k: int| 0 <= k < ex.len() && (#[trigger] ex[k]).1 == x && ex[k].0 >= now) implies #[trigger] names(r, x) by {
        let k = choose|k: int| 0 <= k < ex.len() && (#[trigger] ex[k]).1 == x && ex[k].0 >= now;
        assert(es.contains(we[k]));
        let i = choose|i: int| 0 <= i < es.len() && es[i] == we[k];
        assert(we[k] == (decimal(ex[k].0 as nat), Some(ex[k].1)));
        lemma_parse_decimal_roundtrip(ex[k].0);
        assert(s.has(x));
        assert(saved_text(ds, x) == Some(kept_text(s, x)));
        lemma_revived_complete(es, ds, now, i, x);
    }
    assert forall|j: int| 0 <= j < r.len() implies (#[trigger] r[j]).1 == kept_text(s, r[j].0) by {
        let i = choose|i: int|
            0 <= i < es.len() && (#[trigger] es[i]).1 == Some((#[trigger] r[j]).0) && saved_time(es[i].0) >= now
                && saved_text(ds, r[j].0) == Some(r[j].1);
        assert(we.contains(es[i]));
        let k = choose|k: int| 0 <= k < we.len() && we[k] == es[i];
        assert(we[k] == (decimal(ex[k].0 as nat), Some(ex[k].1)));
        assert(s.has(ex[k].1));
    }
}


/// What a snapshot writes out, in its own order, is what the store holds.
pub proof fn law_written_in_order_is_saved(
    saved: SavedState,
    docs: Seq<(Seq<char>, Seq<char>)>,
    exps: Seq<(u64, Seq<char>)>,
    current: Option<Seq<char>>,
)
    requires
        saved_pairs(saved.docs@) == written_docs(docs),
        saved_pairs(saved.expiries@) == written_expiries(exps),
        crate::mcp::opt_view(saved.current) == current,
    ensures
        saved_from(saved, docs, exps, current),
{
    let es = saved_pairs(saved.expiries@);
    let we = written_expiries(exps);
    let ds = saved_pairs(saved.docs@);
    let wd = written_docs(docs);
    assert(es.len() == saved.expiries@.len());
    assert(ds.len() == saved.docs@.len());
    assert forall|i: int| 0 <= i < saved.expiries@.len() implies we.contains(#[trigger] es[i]) by {
        assert(we[i] == es[i]);
    }
    assert forall|k: int| 0 <= k < exps.len() implies es.contains(#[trigger] we[k]) by {
        assert(we[k] == es[k]);
    }
    assert forall|i: int| 0 <= i < saved.docs@.len() implies wd.contains(#[trigger] ds[i]) by {
        assert(wd[i] == ds[i]);
    }
    assert forall|k: int| 0 <= k < docs.len() implies ds.contains(#[trigger] wd[k]) by {
        assert(wd[k] == ds[k]);
    }
}

/// Keeping a store's state and bringing it back at the time `now` into any store
/// gives back every document that had not expired by then: stored under its name,
/// recording its lines joined by line feeds, and, where its lines are line-safe and
/// the text does not open with a byte order mark, with the very same lines. When one
/// has come back, the current document is one of those that came back.
pub proof fn law_state_round_trip(s: Store, saved: SavedState, now: u64, before: Store, after: Store)
    requires
        s.wf(),
        saved_from(saved, snapshot_docs(s.docs()), s.expiry_entries(), s.current_id()),
        restores(before, after, saved, now),
    ensures
        round_trip_holds(s, now, before, after),
{
    lemma_round_trip_pairs(s, pairs_in(saved), now, before, after);
}

/// Keeping the state of a store `s` to its JSON text and bringing that text back at
/// the time `now` into any store succeeds, and gives back every document of `s` that
/// had not expired by then, as `law_state_round_trip` says.
pub proof fn law_state_text_round_trip(s: Store, t: Seq<char>, now: u64, before: Store, after: Store, ok: bool)
    requires
        s.wf(),
        json_of_text(t) is Some,
        kept_as(saved_of(read_back(t)), snapshot_docs(s.docs()), s.expiry_entries(), s.current_id()),
        ok == (json_of_text(t) is Some),
        ok ==> restores_from(before, after, saved_of(read_back(t)).0, saved_of(read_back(t)).1, saved_of(read_back(t)).2, now),
    ensures
        ok,
        round_trip_holds(s, now, before, after),
{
    lemma_round_trip_pairs(s, saved_of(read_back(t)), now, before, after);
}

/// What a round trip of the state of `s` at the time `now` gives back into a store
/// that was `before` and is `after`: every document of `s` that had not expired by
/// then, stored under its name, recording its lines joined by line feeds, and, where
/// its lines are line-safe and the text does not open with a byte order mark, with
/// the very same lines; and, when one has come back, a current document that is one
/// of those that came back.
pub open spec fn round_trip_holds(s: Store, now: u64, before: Store, after: Store) -> bool {
    &&& forall|k: int|
        0 <= k < s.expiry_entries().len() && (#[trigger] s.expiry_entries()[k]).0 >= now ==> {
            let x = s.expiry_entries()[k].1;
            &&& after.has(x)
            &&& after.doc(x).records(x, kept_text(s, x), before.settings().max_chars as nat)
            &&& (line_safe(strings_of(s.doc(x).pages@)) && !(strings_of(s.doc(x).pages@).len() > 0
                && strings_of(s.doc(x).pages@)[0].len() > 0 && is_bom(
                strings_of(s.doc(x).pages@)[0][0],
            ))) ==> strings_of(after.doc(x).pages@) == strings_of(s.doc(x).pages@)
        }
    &&& forall|x: Seq<char>|
        after.current_id() == Some(x) && (exists|k: int|
            0 <= k < s.expiry_entries().len() && (#[trigger] s.expiry_entries()[k]).0 >= now) ==> exists|k: int|
            0 <= k < s.expiry_entries().len() && (#[trigger] s.expiry_entries()[k]).1 == x
                && s.expiry_entries()[k].0 >= now
}

proof fn lemma_round_trip_pairs(
    s: Store,
    p: (Seq<(Seq<char>, Option<Seq<char>>)>, Seq<(Seq<char>, Option<Seq<char>>)>, Option<Seq<char>>),
    now: u64,
    before: Store,
    after: Store,
)
    requires
        s.wf(),
        kept_as(p, snapshot_docs(s.docs()), s.expiry_entries(), s.current_id()),
        restores_from(before, after, p.0, p.1, p.2, now),
    ensures
        forall|k: int|
            0 <= k < s.expiry_entries().len() && (#[trigger] s.expiry_entries()[k]).0 >= now ==> {
                let x = s.expiry_entries()[k].1;
                &&& after.has(x)
                &&& after.doc(x).records(x, kept_text(s, x), before.settings().max_chars as nat)
                &&& (line_safe(strings_of(s.doc(x).pages@)) && !(strings_of(s.doc(x).pages@).len() > 0
                    && strings_of(s.doc(x).pages@)[0].len() > 0 && is_bom(
                    strings_of(s.doc(x).pages@)[0][0],
                ))) ==> strings_of(after.doc(x).pages@) == strings_of(s.doc(x).pages@)
            },
        forall|x: Seq<char>|
            after.current_id() == Some(x) && (exists|k: int|
                0 <= k < s.expiry_entries().len() && (#[trigger] s.expiry_entries()[k]).0 >= now) ==> exists|k: int|
                0 <= k < s.expiry_entries().len() && (#[trigger] s.expiry_entries()[k]).1 == x
                    && s.expiry_entries()[k].0 >= now,
{
    lemma_restore_pairs(s, p, now);
    let r = revived_all(p.0, p.1, now);
    let ex = s.expiry_entries();
    assert forall|k: int| 0 <= k < ex.len() && (#[trigger] ex[k]).0 >= now implies {
        let x = ex[k].1;
        &&& after.has(x)
        &&& after.doc(x).records(x, kept_text(s, x), before.settings().max_chars as nat)
        &&& (line_safe(strings_of(s.doc(x).pages@)) && !(strings_of(s.doc(x).pages@).len() > 0
            && strings_of(s.doc(x).pages@)[0].len() > 0 && is_bom(strings_of(s.doc(x).pages@)[0][0])))
            ==> strings_of(after.doc(x).pages@) == strings_of(s.doc(x).pages@)
    } by {
        let x = ex[k].1;
        assert(names(r, x));
        let j = choose|j: int| 0 <= j < r.len() && (#[trigger] r[j]).0 == x;
        assert(r[j].1 == kept_text(s, x));
        assert(after.doc(r[j].0).records(r[j].0, r[j].1, before.settings().max_chars as nat));
        let ps = strings_of(s.doc(x).pages@);
        if line_safe(ps) && !(ps.len() > 0 && ps[0].len() > 0 && is_bom(ps[0][0])) {
            law_kept_text_reads_back(ps);
        }
    }
    assert forall|x: Seq<char>|
        after.current_id() == Some(x) && (exists|k: int| 0 <= k < ex.len() && (#[trigger] ex[k]).0 >= now) implies exists|k: int|
        0 <= k < ex.len() && (#[trigger] ex[k]).1 == ex[k].1 && ex[k].1 == x && ex[k].0 >= now by {
        let k0 = choose|k: int| 0 <= k < ex.len() && (#[trigger] ex[k]).0 >= now;
        assert(names(r, ex[k0].1));
        assert(r.len() > 0);
        assert(names(r, r.last().0)) by {
            assert(r[r.len() - 1].0 == r.last().0);
        }
    }
}


/// A request without an id, and every notification, gets no reply.
pub proof fn law_no_reply_without_id(r: McpRequest)
    requires
        !r.has_id || r.method@ == "notifications/initialized"@ || r.method@ == "notifications/cancelled"@
            || r.method@ == "notifications/exit"@,
    ensures
        action_for(r) == ActionModel::Silent,
{
}

/// A frame without an `id` gets no reply, whatever it asks for.
pub proof fn law_frame_without_id_gets_no_reply(
    j: Json,
    q: McpRequest,
    id: Json,
    outcome: Option<(Seq<char>, bool)>,
    reply: Option<Json>,
)
    requires
        request_view(q) == request_model(j),
        member(j, "id"@) is None,
        replies(reply, id, action_for(q), outcome),
    ensures
        reply is None,
{
}

/// A tool call reads the file path from its arguments: where the message's
/// `params.arguments.path` is the string `p`, the request's path is `p`, and a call of
/// `ingest_document` with an id is planned as ingesting the file at `p`.
pub proof fn law_ingest_call_reads_its_path(j: Json, q: McpRequest, params: Json, args: Json, p: Seq<char>)
    requires
        request_view(q) == request_model(j),
        member(j, "params"@) == Some(params),
        member(params, "arguments"@) == Some(args),
        text_member(args, "path"@) == Some(p),
    ensures
        crate::mcp::opt_view(q.path) == Some(p),
        q.method@ == "tools/call"@ && q.has_id && q.tool@ == "ingest_document"@ ==> action_for(q)
            == ActionModel::Ingest(p),
{
    if q.method@ == "tools/call"@ {
        lemma_tools_call_is_no_other_method();
    }
}

proof fn lemma_tools_call_is_no_other_method()
    ensures
        "tools/call"@ != "notifications/initialized"@,
        "tools/call"@ != "notifications/cancelled"@,
        "tools/call"@ != "notifications/exit"@,
        "tools/call"@ != "initialize"@,
        "tools/call"@ != "ping"@,
        "tools/call"@ != "tools/list"@,
{
    reveal_strlit("tools/call");
    reveal_strlit("notifications/initialized");
    reveal_strlit("notifications/cancelled");
    reveal_strlit("notifications/exit");
    reveal_strlit("initialize");
    reveal_strlit("ping");
    reveal_strlit("tools/list");
    assert("tools/call"@[0] != "notifications/initialized"@[0]);
    assert("tools/call"@[0] != "notifications/cancelled"@[0]);
    assert("tools/call"@[0] != "notifications/exit"@[0]);
    assert("tools/call"@[0] != "initialize"@[0]);
    assert("tools/call"@[0] != "ping"@[0]);
    assert("tools/call"@[6] != "tools/list"@[6]);
}

proof fn lemma_initialize_is_no_notification()
    ensures
        "initialize"@ != "notifications/initialized"@,
        "initialize"@ != "notifications/cancelled"@,
        "initialize"@ != "notifications/exit"@,
{
    reveal_strlit("initialize");
    reveal_strlit("notifications/initialized");
    reveal_strlit("notifications/cancelled");
    reveal_strlit("notifications/exit");
    assert("initialize"@[0] != "notifications/initialized"@[0]);
    assert("initialize"@[0] != "notifications/cancelled"@[0]);
    assert("initialize"@[0] != "notifications/exit"@[0]);
}

/// The reply to `initialize` names the protocol version that the client asked for,
/// and `2025-06-18` where it asked for none, with the server's name and version.
pub proof fn law_initialize_echoes_the_version(q: McpRequest)
    requires
        q.method@ == "initialize"@,
        q.has_id,
    ensures
        q.protocol_version matches Some(v) ==> action_for(q) == ActionModel::Initialize(
            v@,
            "physics-saver"@,
            SERVER_VERSION@,
        ),
        q.protocol_version is None ==> action_for(q) == ActionModel::Initialize(
            "2025-06-18"@,
            "physics-saver"@,
            SERVER_VERSION@,
        ),
{
    lemma_initialize_is_no_notification();
}

/// A search asks for the number of results given, up to 20, and for 5 where none is
/// given.
pub proof fn law_results_wanted(v: u64)
    ensures
        results_wanted(Some(v)) == if v <= 20 {
            v as nat
        } else {
            20nat
        },
        results_wanted(None) == 5,
{
}

/// A search call with an id and a query of more than white space asks for the number
/// of results given, up to 20, and for 5 where none is given.
pub proof fn law_search_call_asks_for_k(q: McpRequest, query: Seq<char>)
    requires
        q.method@ == "tools/call"@,
        q.has_id,
        q.tool@ == "search_documents"@,
        crate::mcp::opt_view(q.query) == Some(query),
        trim(query).len() > 0,
    ensures
        action_for(q) == ActionModel::Search(
            query,
            match q.k {
                Some(v) => if v <= 20 {
                    v as nat
                } else {
                    20nat
                },
                None => 5nat,
            },
        ),
{
    lemma_tools_call_is_no_other_method();
    reveal_strlit("search_documents");
    reveal_strlit("ingest_document");
    assert("search_documents"@[0] != "ingest_document"@[0]);
}

/// The count of a `search` command is the first argument that is a decimal numeral
/// of a number that fits `usize`: where the arguments before the `i`-th read as no
/// number and the `i`-th is the numeral of `v`, the count is `v`.
pub proof fn law_search_count_is_the_first_number(args: Seq<Seq<char>>, i: int, v: u64)
    requires
        0 <= i < args.len(),
        args[i] == decimal(v as nat),
        v <= usize::MAX,
        forall|j: int| 0 <= j < i ==> parse_decimal(#[trigger] args[j]) is None,
    ensures
        first_number(args) == v,
    decreases i,
{
    if i == 0 {
        lemma_parse_decimal_roundtrip(v);
    } else {
        let rest = args.drop_first();
        assert forall|j: int| 0 <= j < i - 1 implies parse_decimal(#[trigger] rest[j]) is None by {
            assert(rest[j] == args[j + 1]);
        }
        assert(rest[i - 1] == args[i]);
        assert(parse_decimal(args[0]) is None);
        law_search_count_is_the_first_number(rest, i - 1, v);
    }
}

/// The tag that opens the block of the result `h`: its page and its score.
pub open spec fn opening_tag(h: Hit) -> Seq<char> {
    "\n<document-chunk page="@ + decimal(h.page as nat) + " score="@ + h.score@ + ">\n"@
}

/// The tag that closes a result's block.
pub open spec fn closing_tag() -> Seq<char> {
    "\n</document-chunk>"@
}

/// Whether the text of the result `h` stands whole at `o` in `s`, right after its
/// opening tag and right before the closing tag.
pub open spec fn shown_whole_at(s: Seq<char>, h: Hit, o: int) -> bool {
    let t = h.text@;
    &&& opening_tag(h).len() <= o
    &&& o + t.len() + closing_tag().len() <= s.len()
    &&& s.subrange(o - opening_tag(h).len(), o) == opening_tag(h)
    &&& s.subrange(o, o + t.len()) == t
    &&& s.subrange(o + t.len(), o + t.len() + closing_tag().len()) == closing_tag()
}

proof fn lemma_shown_after(p: Seq<char>, s: Seq<char>, h: Hit, o: int)
    requires
        shown_whole_at(s, h, o),
    ensures
        shown_whole_at(p + s, h, o + p.len()),
{
    let t = h.text@;
    let n = p.len() as int;
    let a = opening_tag(h).len() as int;
    let c = closing_tag().len() as int;
    assert((p + s).subrange(o + n - a, o + n) =~= s.subrange(o - a, o));
    assert((p + s).subrange(o + n, o + n + t.len()) =~= s.subrange(o, o + t.len()));
    assert((p + s).subrange(o + n + t.len(), o + n + t.len() + c) =~= s.subrange(o + t.len(), o + t.len() + c));
}

proof fn lemma_shown_before(s: Seq<char>, q: Seq<char>, h: Hit, o: int)
    requires
        shown_whole_at(s, h, o),
    ensures
        shown_whole_at(s + q, h, o),
{
    let t = h.text@;
    let a = opening_tag(h).len() as int;
    let c = closing_tag().len() as int;
    assert((s + q).subrange(o - a, o) =~= s.subrange(o - a, o));
    assert((s + q).subrange(o, o + t.len()) =~= s.subrange(o, o + t.len()));
    assert((s + q).subrange(o + t.len(), o + t.len() + c) =~= s.subrange(o + t.len(), o + t.len() + c));
}

proof fn lemma_blocks_show_whole(hs: Seq<Hit>, i: int)
    requires
        0 <= i < hs.len(),
    ensures
        exists|o: int| shown_whole_at(hit_blocks(hs), hs[i], o),
    decreases hs.len(),
{
    let pre = hs.drop_last();
    let h = hs.last();
    let b = hit_block(h.page as nat, h.score@, h.text@);
    assert(hit_blocks(hs) == hit_blocks(pre) + b);
    if i == hs.len() - 1 {
        let a = opening_tag(h).len() as int;
        let t = h.text@;
        assert(b =~= opening_tag(h) + t + closing_tag());
        assert(b.subrange(0, a) =~= opening_tag(h));
        assert(b.subrange(a, a + t.len()) =~= t);
        assert(b.subrange(a + t.len(), a + t.len() + closing_tag().len()) =~= closing_tag());
        assert(shown_whole_at(b, h, a));
        lemma_shown_after(hit_blocks(pre), b, h, a);
        assert(hs[i] == h);
    } else {
        lemma_blocks_show_whole(pre, i);
        let o = choose|o: int| shown_whole_at(hit_blocks(pre), pre[i], o);
        lemma_shown_before(hit_blocks(pre), b, pre[i], o);
        assert(pre[i] == hs[i]);
    }
}

/// Search results show each result's text whole: the reply holds every result's text,
/// in full, right after the tag that names its page and score and right before the
/// closing tag.
pub proof fn law_results_show_whole_texts(hs: Seq<Hit>, i: int)
    requires
        0 <= i < hs.len(),
    ensures
        exists|o: int| shown_whole_at(results_text(hs), hs[i], o),
{
    lemma_blocks_show_whole(hs, i);
    let o = choose|o: int| shown_whole_at(hit_blocks(hs), hs[i], o);
    lemma_shown_after(DATA_PREAMBLE@, hit_blocks(hs), hs[i], o);
    assert(results_text(hs) == DATA_PREAMBLE@ + hit_blocks(hs));
    assert(shown_whole_at(results_text(hs), hs[i], o + DATA_PREAMBLE@.len()));
}

/// A call of `ingest_document` without a path, and a call of `search_documents` with
/// no query or one of only white space, are answered with an error naming the missing
/// argument.
pub proof fn law_missing_arguments_are_errors(q: McpRequest)
    requires
        q.method@ == "tools/call"@,
        q.has_id,
    ensures
        q.tool@ == "ingest_document"@ && q.path is None ==> action_for(q) == ActionModel::ToolError(
            "Error: missing required argument 'path'"@,
        ),
        q.tool@ == "search_documents"@ && (q.query is None || trim(q.query->0@).len() == 0) ==> action_for(q)
            == ActionModel::ToolError("Error: missing required argument 'query'"@),
{
    lemma_tools_call_is_no_other_method();
    reveal_strlit("search_documents");
    reveal_strlit("ingest_document");
    assert("search_documents"@[0] != "ingest_document"@[0]);
    if q.query is None {
        assert(trim(Seq::<char>::empty()).len() == 0) by {
            reveal_with_fuel(crate::text::trim_start, 2);
            reveal_with_fuel(crate::text::trim_end, 2);
        }
    }
}

/// A request with an id whose method the server does not know is answered with
/// "Method not found: " and the method.
pub proof fn law_unknown_methods_are_not_found(q: McpRequest)
    requires
        q.has_id,
        q.method@ != "notifications/initialized"@,
        q.method@ != "notifications/cancelled"@,
        q.method@ != "notifications/exit"@,
        q.method@ != "initialize"@,
        q.method@ != "ping"@,
        q.method@ != "tools/list"@,
        q.method@ != "tools/call"@,
    ensures
        action_for(q) == ActionModel::MethodNotFound("Method not found: "@ + q.method@),
{
}

/// A search asks for at most `MAX_RESULTS` results, for a query with more than
/// white space.
pub proof fn law_search_is_bounded(r: McpRequest)
    ensures
        action_for(r) matches ActionModel::Search(q, k) ==> k <= MAX_RESULTS && trim(q).len() > 0,
{
}

/// A search reply shows one block for each of the first `k` chunks by score, where
/// `k` is the number of results the request asks for (`DEFAULT_RESULTS` where it names
/// none, at most `MAX_RESULTS`): as many blocks as there are chunks where there are
/// fewer, and the note "No results found." where there are none.
pub proof fn law_search_reply_size(r: McpRequest, keys: Seq<i64>, places: Seq<usize>, hits: Seq<Hit>)
    requires
        action_for(r) is Search,
        is_top(keys, results_wanted(r.k), places),
        hits.len() == places.len(),
    ensures
        action_for(r) matches ActionModel::Search(q, k) && k == results_wanted(r.k),
        hits.len() == if keys.len() < results_wanted(r.k) {
            keys.len()
        } else {
            results_wanted(r.k)
        },
        hits.len() <= MAX_RESULTS,
        hits.len() == 0 ==> results_text(hits) == "No results found."@,
        hits.len() > 0 ==> results_text(hits) == DATA_PREAMBLE@ + hit_blocks(hits),
{
}

/// The counts of a text's words are bounded by its number of words; long words and
/// stop words are told apart, so together they are no more than all words.
pub proof fn law_word_counts_bounded(st: WordStats, ws: Seq<Seq<char>>)
    requires
        st.counts(ws),
    ensures
        st.long_words + st.stop_words <= st.words,
        st.suffixed_words <= st.words,
        st.distinct_words <= st.words,
        st.words > 0 ==> st.distinct_words > 0,
{
    lemma_long_stop_disjoint(ws);
    ws.lemma_filter_len(|w: Seq<char>| crate::lexicon::is_suffixed_word(w));
    ws.lemma_cardinality_of_set();
    ws.lemma_cardinality_of_empty_set_is_0();
}

proof fn lemma_long_stop_disjoint(ws: Seq<Seq<char>>)
    ensures
        ws.filter(|w: Seq<char>| is_long_word(w)).len() + ws.filter(|w: Seq<char>| is_stop_word(w)).len()
            <= ws.len(),
    decreases ws.len(),
{
    reveal_with_fuel(Seq::filter, 1);
    if ws.len() > 0 {
        lemma_long_stop_disjoint(ws.drop_last());
    }
}


/// There is only one ranking: two lists that both give the first `k` places by key,
/// highest first, ties in order of place, are the same list.
pub proof fn law_ranking_is_unique(keys: Seq<i64>, k: nat, r1: Seq<usize>, r2: Seq<usize>)
    requires
        is_top(keys, k, r1),
        is_top(keys, k, r2),
    ensures
        r1 == r2,
{
    assert forall|j: int| 0 <= j < r1.len() implies r1[j] == r2[j] by {
        lemma_ranking_agrees_upto(keys, k, r1, r2, j);
    }
    assert(r1 =~= r2);
}

proof fn lemma_ranking_agrees_upto(keys: Seq<i64>, k: nat, r1: Seq<usize>, r2: Seq<usize>, j: int)
    requires
        is_top(keys, k, r1),
        is_top(keys, k, r2),
        0 <= j < r1.len(),
    ensures
        r1[j] == r2[j],
    decreases j,
{
    if j > 0 {
        lemma_ranking_agrees_upto(keys, k, r1, r2, j - 1);
    }
    assert forall|t: int| 0 <= t < j implies r1[t] == r2[t] by {
        lemma_ranking_agrees_upto(keys, k, r1, r2, t);
    }
    let a = r1[j];
    let b = r2[j];
    if a != b {
        lemma_ranks_after(keys, k, r1, r2, j);
        lemma_ranks_after(keys, k, r2, r1, j);
        assert(ranks_before(keys, a as int, b as int));
        assert(ranks_before(keys, b as int, a as int));
    }
}

/// Where two rankings agree before place `j` and differ at it, the first one's item
/// at `j` ranks before the second one's.
proof fn lemma_ranks_after(keys: Seq<i64>, k: nat, r1: Seq<usize>, r2: Seq<usize>, j: int)
    requires
        is_top(keys, k, r1),
        is_top(keys, k, r2),
        0 <= j < r1.len(),
        forall|t: int| 0 <= t < j ==> r1[t] == r2[t],
        r1[j] != r2[j],
    ensures
        ranks_before(keys, r1[j] as int, r2[j] as int),
{
    let b = r2[j];
    assert(b < keys.len());
    if r1.contains(b) {
        let t = choose|t: int| 0 <= t < r1.len() && r1[t] == b;
        if t < j {
            assert(r2[t] == b);
            assert(ranks_before(keys, r2[t] as int, r2[j] as int));
        } else {
            assert(t > j);
            assert(ranks_before(keys, r1[j] as int, r1[t] as int));
        }
    } else {
        assert(ranks_before(keys, r1[j] as int, b as int));
    }
}

} // verus!
