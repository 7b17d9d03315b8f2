//! How a text becomes a document: its pages, its outline and its planned chunks.
use vstd::prelude::*;
use crate::chunking::{chunk_chars, chunks};
use crate::text::{
    is_bom, lines, seqs_of, split_lines, trim, trim_chars, utf8_len, utf8_longer_than,
};

verus! {

/// The most headings an outline keeps.
pub const OUTLINE_LIMIT: usize = 5;

/// The fewest bytes a heading of the outline exceeds.
pub const HEADING_MIN_BYTES: usize = 10;

/// Whether `c` is upper case: a name for the result of `char::is_uppercase`,
/// the Unicode `Uppercase` property of `c`.
pub uninterp spec fn is_uppercase(c: char) -> bool;

/// Whether `c` is upper case, by `char::is_uppercase`.
#[verifier::external_body]
pub fn char_is_uppercase(c: char) -> (b: bool)
    ensures
        b == is_uppercase(c),
{
    c.is_uppercase()
}

/// The body of a text: the text without a leading byte order mark.
pub open spec fn body(content: Seq<char>) -> Seq<char> {
    crate::text::strip_bom(content)
}

/// The pages of a text: the lines of its body.
pub open spec fn pages(content: Seq<char>) -> Seq<Seq<char>> {
    lines(body(content))
}

/// Whether a trimmed line is a heading: it opens with an upper-case letter and
/// takes more than `HEADING_MIN_BYTES` bytes.
pub open spec fn is_heading(t: Seq<char>) -> bool {
    t.len() > 0 && is_uppercase(t[0]) && utf8_len(t) > HEADING_MIN_BYTES
}

/// The outline gathered from the first `n` lines: the trimmed headings, at most
/// `OUTLINE_LIMIT` of them.
pub open spec fn outline_upto(ls: Seq<Seq<char>>, n: int) -> Seq<Seq<char>>
    decreases n,
{
    if n <= 0 {
        seq![]
    } else {
        let o = outline_upto(ls, n - 1);
        if o.len() < OUTLINE_LIMIT && is_heading(trim(ls[n - 1])) {
            o.push(trim(ls[n - 1]))
        } else {
            o
        }
    }
}

/// The outline of a text.
pub open spec fn outline(content: Seq<char>) -> Seq<Seq<char>> {
    outline_upto(pages(content), pages(content).len() as int)
}

/// The chunk texts that one line gives: its chunks; where it has none, the line
/// itself if it holds more than white space.
pub open spec fn line_entries(line: Seq<char>) -> Seq<Seq<char>> {
    if chunks(line).len() == 0 {
        if trim(line).len() > 0 {
            seq![line]
        } else {
            seq![]
        }
    } else {
        chunks(line)
    }
}

/// The chunks of the first `n` lines, each with its line number (from 1).
pub open spec fn planned_upto(ls: Seq<Seq<char>>, n: int) -> Seq<(int, Seq<char>)>
    decreases n,
{
    if n <= 0 {
        seq![]
    } else {
        planned_upto(ls, n - 1) + line_entries(ls[n - 1]).map_values(|t: Seq<char>| (n, t))
    }
}

/// The chunks of a text, each with its line number; a text without any is one
/// chunk, its whole body, on line 1.
pub open spec fn planned_chunks(content: Seq<char>) -> Seq<(int, Seq<char>)> {
    let p = planned_upto(pages(content), pages(content).len() as int);
    if p.len() == 0 {
        seq![(1int, body(content))]
    } else {
        p
    }
}

/// The views of planned chunks.
pub open spec fn plan_of(v: Seq<(usize, Vec<char>)>) -> Seq<(int, Seq<char>)> {
    v.map_values(|e: (usize, Vec<char>)| (e.0 as int, e.1@))
}

/// The characters of `content` without a leading byte order mark.
pub fn body_chars(content: &[char]) -> (b: Vec<char>)
    ensures
        b@ == body(content@),
{
    let start: usize = if content.len() > 0 && content[0] == '\u{feff}' {
        1
    } else {
        0
    };
    let mut b: Vec<char> = Vec::new();
    let mut i: usize = start;
    while i < content.len()
        invariant
            start <= i <= content.len(),
            start == (if content@.len() > 0 && is_bom(content@[0]) { 1int } else { 0int }),
            b@ == content@.subrange(start as int, i as int),
        decreases content.len() - i,
    {
        b.push(content[i]);
        i = i + 1;
        proof {
            assert(b@ =~= content@.subrange(start as int, i as int));
        }
    }
    proof {
        if start == 1 {
            assert(b@ =~= content@.drop_first());
        } else {
            assert(b@ =~= content@);
        }
    }
    b
}

/// A copy of `v`.
pub fn copy_chars(v: &[char]) -> (c: Vec<char>)
    ensures
        c@ == v@,
{
    let mut c: Vec<char> = Vec::new();
    let mut i: usize = 0;
    while i < v.len()
        invariant
            i <= v.len(),
            c@ == v@.take(i as int),
        decreases v.len() - i,
    {
        c.push(v[i]);
        i = i + 1;
        proof {
            assert(c@ =~= v@.take(i as int));
        }
    }
    proof {
        assert(c@ =~= v@);
    }
    c
}

/// The pages, the outline and the planned chunks of the text `content`.
pub fn plan_document(content: &[char]) -> (r: (Vec<Vec<char>>, Vec<Vec<char>>, Vec<(usize, Vec<char>)>))
    ensures
        seqs_of(r.0@) == pages(content@),
        seqs_of(r.1@) == outline(content@),
        plan_of(r.2@) == planned_chunks(content@),
{
    let b = body_chars(content);
    let ls = split_lines(b.as_slice());
    let ghost lv = seqs_of(ls@);
    let mut heads: Vec<Vec<char>> = Vec::new();
    let mut plan: Vec<(usize, Vec<char>)> = Vec::new();
    let mut i: usize = 0;
    while i < ls.len()
        invariant
            i <= ls.len(),
            lv == seqs_of(ls@),
            lv == pages(content@),
            seqs_of(heads@) == outline_upto(lv, i as int),
            plan_of(plan@) == planned_upto(lv, i as int),
        decreases ls.len() - i,
    {
        let line = ls[i].as_slice();
        proof {
            assert(lv[i as int] == line@);
        }
        if heads.len() < OUTLINE_LIMIT {
            let t = trim_chars(line);
            if t.len() > 0 && char_is_uppercase(t[0]) && utf8_longer_than(t.as_slice(), HEADING_MIN_BYTES) {
                let ghost prev = seqs_of(heads@);
                let ghost tv = t@;
                heads.push(t);
                proof {
                    assert(seqs_of(heads@) =~= prev.push(tv));
                }
            }
        }
        let parts = chunk_chars(line);
        let ghost entries = line_entries(line@);
        let ghost before = plan_of(plan@);
        let page = i + 1;
        if parts.len() == 0 {
            let t = trim_chars(line);
            if t.len() > 0 {
                plan.push((page, copy_chars(line)));
                proof {
                    assert(plan_of(plan@) =~= before + entries.map_values(|t: Seq<char>| (page as int, t)));
                }
            } else {
                proof {
                    assert(plan_of(plan@) =~= before + entries.map_values(|t: Seq<char>| (page as int, t)));
                }
            }
        } else {
            let mut j: usize = 0;
            while j < parts.len()
                invariant
                    j <= parts.len(),
                    page == i + 1,
                    seqs_of(parts@) == entries,
                    plan_of(plan@) == before + entries.take(j as int).map_values(
                        |t: Seq<char>| (page as int, t),
                    ),
                decreases parts.len() - j,
            {
                let ghost prev = plan_of(plan@);
                let c = copy_chars(parts[j].as_slice());
                plan.push((page, c));
                proof {
                    assert(plan_of(plan@) =~= prev.push((page as int, parts@[j as int]@)));
                    assert(entries.take(j + 1).map_values(|t: Seq<char>| (page as int, t))
                        =~= entries.take(j as int).map_values(|t: Seq<char>| (page as int, t)).push(
                        (page as int, entries[j as int]),
                    ));
                }
                j = j + 1;
            }
            proof {
                assert(entries.take(parts.len() as int) =~= entries);
            }
        }
        i = i + 1;
    }
    if plan.len() == 0 {
        let whole = copy_chars(b.as_slice());
        plan.push((1, whole));
        proof {
            assert(plan_of(plan@) =~= seq![(1int, body(content@))]);
        }
    }
    (ls, heads, plan)
}


/// The stem of the last component of a path: a name for the result of
/// `Path::file_stem`, its text taken lossily as UTF-8.
pub uninterp spec fn file_stem_of(path: Seq<char>) -> Option<Seq<char>>;

/// The stem of the last component of `path`, by `Path::file_stem`.
#[verifier::external_body]
pub fn path_file_stem(path: &str) -> (r: Option<String>)
    ensures
        match r {
            Some(s) => file_stem_of(path@) == Some(s@),
            None => file_stem_of(path@) is None,
        },
{
    std::path::Path::new(path).file_stem().map(|s| s.to_string_lossy().to_string())
}

/// The name a file is ingested under: its stem (or `doc` where it has none), a hyphen,
/// and its modification time in sixteen hexadecimal digits.
pub open spec fn document_name_of(path: Seq<char>, mtime: u64) -> Seq<char> {
    let stem = match file_stem_of(path) {
        Some(s) => s,
        None => "doc"@,
    };
    stem + "-"@ + crate::numbers::hex_digits(mtime as nat, 16)
}

/// The name the file at `path`, last modified at `mtime`, is ingested under.
pub fn document_name(path: &str, mtime: u64) -> (r: String)
    ensures
        r@ == document_name_of(path@, mtime),
{
    let stem = match path_file_stem(path) {
        Some(s) => s,
        None => String::from_str("doc"),
    };
    let mut out: Vec<char> = Vec::new();
    crate::store::push_str_chars(&mut out, stem.as_str());
    crate::store::push_str_chars(&mut out, "-");
    let digits = crate::numbers::hex16(mtime);
    let mut i: usize = 0;
    let ghost start = out@;
    while i < digits.len()
        invariant
            i <= digits.len(),
            out@ == start + digits@.take(i as int),
        decreases digits.len() - i,
    {
        out.push(digits[i]);
        i = i + 1;
        proof {
            assert(out@ =~= start + digits@.take(i as int));
        }
    }
    proof {
        assert(digits@.take(i as int) =~= digits@);
    }
    crate::text::string_of(out.as_slice())
}

} // verus!
