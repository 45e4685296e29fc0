//! Splitting raw CSV bytes into rows and fields.
//!
//! The format accepted here: rows are separated by line feeds, a carriage
//! return directly before a line feed belongs to the separator, rows that
//! are empty after that are ignored, and fields within a row are separated
//! by commas. Fields are kept as raw bytes; nothing here interprets them.

use vstd::prelude::*;

verus! {

/// Line feed, the row separator.
pub const LF: u8 = 10;

/// Carriage return, stripped from the end of a row.
pub const CR: u8 = 13;

/// Comma, the field separator.
pub const COMMA: u8 = 44;

/// The pieces of `s` between occurrences of `sep`: always one more piece
/// than there are separators, so splitting an empty sequence gives one
/// empty piece.
pub open spec fn split_on(s: Seq<u8>, sep: u8) -> Seq<Seq<u8>>
    decreases s.len(),
{
    if s.len() == 0 {
        seq![Seq::<u8>::empty()]
    } else if s[0] == sep {
        seq![Seq::<u8>::empty()] + split_on(s.skip(1), sep)
    } else {
        let rest = split_on(s.skip(1), sep);
        seq![seq![s[0]] + rest[0]] + rest.skip(1)
    }
}

/// Splitting never yields an empty list of pieces.
pub proof fn lemma_split_on_nonempty(s: Seq<u8>, sep: u8)
    ensures
        split_on(s, sep).len() >= 1,
    decreases s.len(),
{
    if s.len() > 0 {
        lemma_split_on_nonempty(s.skip(1), sep);
    }
}

/// How often `b` occurs in `s`.
pub open spec fn count_byte(s: Seq<u8>, b: u8) -> nat
    decreases s.len(),
{
    if s.len() == 0 {
        0
    } else {
        (if s[0] == b {
            1nat
        } else {
            0nat
        }) + count_byte(s.skip(1), b)
    }
}

/// Splitting yields exactly one more piece than there are separators.
pub proof fn lemma_split_on_count(s: Seq<u8>, sep: u8)
    ensures
        split_on(s, sep).len() == count_byte(s, sep) + 1,
    decreases s.len(),
{
    if s.len() > 0 {
        lemma_split_on_count(s.skip(1), sep);
    }
}

/// The pieces interleaved with the separator again.
pub open spec fn join_with(pieces: Seq<Seq<u8>>, sep: u8) -> Seq<u8>
    decreases pieces.len(),
{
    if pieces.len() == 0 {
        Seq::empty()
    } else if pieces.len() == 1 {
        pieces[0]
    } else {
        pieces[0] + seq![sep] + join_with(pieces.skip(1), sep)
    }
}

/// Splitting loses nothing: joining the pieces with the separator gives
/// back the bytes that were split.
pub proof fn lemma_split_on_join(s: Seq<u8>, sep: u8)
    ensures
        join_with(split_on(s, sep), sep) == s,
    decreases s.len(),
{
    if s.len() == 0 {
        assert(join_with(split_on(s, sep), sep) =~= s);
    } else {
        let tail = s.skip(1);
        let rest = split_on(tail, sep);
        lemma_split_on_join(tail, sep);
        lemma_split_on_nonempty(tail, sep);
        if s[0] == sep {
            assert(split_on(s, sep).skip(1) =~= rest);
            assert(join_with(split_on(s, sep), sep) =~= s);
        } else {
            let full = split_on(s, sep);
            assert(full[0] == seq![s[0]] + rest[0]);
            if rest.len() == 1 {
                assert(join_with(rest, sep) == rest[0]);
                assert(join_with(full, sep) =~= s);
            } else {
                assert(full.skip(1) =~= rest.skip(1));
                assert(join_with(full, sep) == full[0] + seq![sep] + join_with(
                    rest.skip(1),
                    sep,
                ));
                assert(join_with(rest, sep) == rest[0] + seq![sep] + join_with(
                    rest.skip(1),
                    sep,
                ));
                assert(join_with(full, sep) =~= seq![s[0]] + join_with(rest, sep));
                assert(seq![s[0]] + tail =~= s);
            }
        }
    }
}

/// Splits `s` at each occurrence of `sep`.
pub fn split_bytes(s: &Vec<u8>, sep: u8) -> (pieces: Vec<Vec<u8>>)
    ensures
        pieces@.len() == split_on(s@, sep).len(),
        forall|k: int|
            0 <= k < pieces@.len() ==> #[trigger] pieces@[k]@ == split_on(s@, sep)[k],
{
    let mut pieces: Vec<Vec<u8>> = Vec::new();
    pieces.push(Vec::new());
    let mut i: usize = s.len();
    while i > 0
        invariant
            i <= s@.len(),
            pieces@.len() == split_on(s@.skip(i as int), sep).len(),
            forall|k: int|
                0 <= k < pieces@.len() ==> #[trigger] pieces@[k]@ == split_on(
                    s@.skip(i as int),
                    sep,
                )[k],
        decreases i,
    {
        i = i - 1;
        proof {
            assert(s@.skip(i as int).skip(1) =~= s@.skip(i as int + 1));
            assert(s@.skip(i as int)[0] == s@[i as int]);
            lemma_split_on_nonempty(s@.skip(i as int + 1), sep);
        }
        if s[i] == sep {
            pieces.insert(0, Vec::new());
        } else {
            let mut first = pieces.remove(0);
            first.insert(0, s[i]);
            pieces.insert(0, first);
            proof {
                let full = split_on(s@.skip(i as int), sep);
                let rest = split_on(s@.skip(i as int + 1), sep);
                assert(full == seq![seq![s@[i as int]] + rest[0]] + rest.skip(1));
                assert(pieces@[0]@ =~= full[0]);
                assert(forall|k: int|
                    1 <= k < pieces@.len() ==> #[trigger] pieces@[k]@ == full[k]);
            }
        }
    }
    proof {
        assert(s@.skip(0) =~= s@);
    }
    pieces
}

/// `line` without a final carriage return, if it has one.
pub open spec fn strip_cr(line: Seq<u8>) -> Seq<u8> {
    if line.len() > 0 && line[line.len() - 1] == CR {
        line.drop_last()
    } else {
        line
    }
}

/// The rows a list of raw lines stands for: each line loses a final
/// carriage return, lines that are then empty are ignored, and the rest
/// are split into fields at commas.
pub open spec fn rows_of_lines(lines: Seq<Seq<u8>>) -> Seq<Seq<Seq<u8>>>
    decreases lines.len(),
{
    if lines.len() == 0 {
        Seq::empty()
    } else {
        let rest = rows_of_lines(lines.drop_last());
        let line = strip_cr(lines.last());
        if line.len() == 0 {
            rest
        } else {
            rest + seq![split_on(line, COMMA)]
        }
    }
}

/// The rows of a whole byte content: its lines, read as rows.
pub open spec fn csv_rows(s: Seq<u8>) -> Seq<Seq<Seq<u8>>> {
    rows_of_lines(split_on(s, LF))
}

/// Splits raw bytes into rows of fields, one row per non-empty line.
pub fn parse_rows(bytes: &Vec<u8>) -> (rows: Vec<Vec<Vec<u8>>>)
    ensures
        rows@.len() == csv_rows(bytes@).len(),
        forall|k: int| #![trigger rows@[k]]
            0 <= k < rows@.len() ==> {
                &&& rows@[k]@.len() == csv_rows(bytes@)[k].len()
                &&& forall|j: int|
                    0 <= j < rows@[k]@.len() ==> #[trigger] rows@[k]@[j]@ == csv_rows(
                        bytes@,
                    )[k][j]
            },
{
    let lines = split_bytes(bytes, LF);
    let ghost all_lines = lines@.map_values(|l: Vec<u8>| l@);
    proof {
        assert(all_lines.len() == split_on(bytes@, LF).len());
        assert(forall|k: int|
            0 <= k < all_lines.len() ==> #[trigger] all_lines[k] == split_on(bytes@, LF)[k]);
        assert(all_lines =~= split_on(bytes@, LF));
    }
    let mut rows: Vec<Vec<Vec<u8>>> = Vec::new();
    let n = lines.len();
    let mut k: usize = 0;
    while k < n
        invariant
            n == lines@.len(),
            k <= n,
            all_lines == split_on(bytes@, LF),
            all_lines.len() == lines@.len(),
            forall|m: int| 0 <= m < lines@.len() ==> #[trigger] lines@[m]@ == all_lines[m],
            rows@.len() == rows_of_lines(all_lines.take(k as int)).len(),
            forall|m: int| #![trigger rows@[m]]
                0 <= m < rows@.len() ==> {
                    &&& rows@[m]@.len() == rows_of_lines(all_lines.take(k as int))[m].len()
                    &&& forall|j: int|
                        0 <= j < rows@[m]@.len() ==> #[trigger] rows@[m]@[j]@ == rows_of_lines(
                            all_lines.take(k as int),
                        )[m][j]
                },
        decreases n - k,
    {
        let mut line = lines[k].clone();
        proof {
            assert(line@ == all_lines[k as int]);
        }
        if line.len() > 0 && line[line.len() - 1] == CR {
            line.pop();
        }
        proof {
            assert(line@ =~= strip_cr(all_lines[k as int]));
            assert(all_lines.take(k as int + 1).drop_last() =~= all_lines.take(k as int));
            assert(all_lines.take(k as int + 1).last() == all_lines[k as int]);
        }
        if line.len() > 0 {
            let fields = split_bytes(&line, COMMA);
            rows.push(fields);
        }
        k = k + 1;
    }
    proof {
        assert(all_lines.take(n as int) =~= all_lines);
    }
    rows
}

} // verus!
