//! Styled chunks, weighted lines, and width-based splitting.
//!
//! A `StyledChunk` is an atomic run of text with one style.  A `WeightedLine`
//! is an ordered sequence of chunks together with its total display width,
//! and can be split into rows of at most a given number of columns.  Display
//! width is measured in characters: each character occupies one column.
//!
//! Splitting is purely width based: rows are filled to exactly the column
//! bound, cutting a chunk in two where the bound falls inside it (both parts
//! keep the chunk's style), and only the final row may be shorter.
//! Zero-width chunks never appear in a row.

use vstd::prelude::*;
use vstd::string::StrSliceExecFns;
use crate::style::TextStyle;

verus! {

/// The mathematical value of a styled chunk: its characters and its style.
#[verifier::ext_equal]
pub ghost struct ChunkView {
    pub text: Seq<char>,
    pub style: TextStyle,
}

impl ChunkView {
    /// Display width of the chunk, in columns: one column per character.
    pub open spec fn width(self) -> nat {
        self.text.len()
    }
}

/// An atomic run of text paired with a style.  Immutable once produced.
#[derive(Debug, PartialEq, Eq)]
pub struct StyledChunk {
    pub text: String,
    pub style: TextStyle,
}

impl View for StyledChunk {
    type V = ChunkView;

    open spec fn view(&self) -> ChunkView {
        ChunkView { text: self.text@, style: self.style }
    }
}

impl StyledChunk {
    pub fn new(text: String, style: TextStyle) -> (chunk: StyledChunk)
        ensures
            chunk@ == (ChunkView { text: text@, style }),
    {
        StyledChunk { text, style }
    }

    /// Display width of this chunk, in columns.
    pub fn width(&self) -> (w: usize)
        ensures
            w == self@.width(),
    {
        self.text.as_str().unicode_len()
    }

    /// A chunk with the same text and style as this one.
    pub fn duplicate(&self) -> (chunk: StyledChunk)
        ensures
            chunk@ == self@,
    {
        StyledChunk { text: self.text.clone(), style: self.style }
    }
}

/// The chunk values of a sequence of chunks.
pub open spec fn view_chunks(chunks: Seq<StyledChunk>) -> Seq<ChunkView> {
    chunks.map_values(|c: StyledChunk| c@)
}

/// The row values of a sequence of rows of chunks.
pub open spec fn view_rows(rows: Seq<Vec<StyledChunk>>) -> Seq<Seq<ChunkView>> {
    rows.map_values(|r: Vec<StyledChunk>| view_chunks(r@))
}

/// Total display width of a sequence of chunks, in columns.
pub open spec fn total_width(chunks: Seq<ChunkView>) -> nat
    decreases chunks.len(),
{
    if chunks.len() == 0 {
        0
    } else {
        chunks[0].width() + total_width(chunks.drop_first())
    }
}

/// The chunks that make up the first `count` columns of `chunks` (all of
/// them, if `chunks` is narrower than `count`).  A chunk lying across the
/// boundary is cut, keeping its style; zero-width chunks are dropped.
pub open spec fn take_columns(chunks: Seq<ChunkView>, count: nat) -> Seq<ChunkView>
    decreases chunks.len(),
{
    if chunks.len() == 0 || count == 0 {
        Seq::empty()
    } else {
        let c = chunks[0];
        let rest = chunks.drop_first();
        if c.width() == 0 {
            take_columns(rest, count)
        } else if c.width() <= count {
            seq![c] + take_columns(rest, (count - c.width()) as nat)
        } else {
            seq![ChunkView { text: c.text.take(count as int), style: c.style }]
        }
    }
}

/// What remains of `chunks` after its first `count` columns are removed.
pub open spec fn skip_columns(chunks: Seq<ChunkView>, count: nat) -> Seq<ChunkView>
    decreases chunks.len(),
{
    if chunks.len() == 0 {
        Seq::empty()
    } else if count == 0 {
        chunks
    } else {
        let c = chunks[0];
        let rest = chunks.drop_first();
        if c.width() <= count {
            skip_columns(rest, (count - c.width()) as nat)
        } else {
            seq![ChunkView { text: c.text.skip(count as int), style: c.style }] + rest
        }
    }
}

/// Splitting a line whose chunks are `chunks` at `max` columns: every row but
/// the last is exactly `max` columns wide, the last row holds what is left.
/// With a bound of zero columns the whole line stands as a single row.
pub open spec fn split_rows(chunks: Seq<ChunkView>, max: nat) -> Seq<Seq<ChunkView>>
    decreases total_width(chunks),
        when true via split_rows_decreases
{
    if max == 0 || total_width(chunks) <= max {
        seq![take_columns(chunks, total_width(chunks))]
    } else {
        seq![take_columns(chunks, max)] + split_rows(skip_columns(chunks, max), max)
    }
}

#[via_fn]
proof fn split_rows_decreases(chunks: Seq<ChunkView>, max: nat) {
    if !(max == 0 || total_width(chunks) <= max) {
        lemma_skip_columns_width(chunks, max);
    }
}

/// Total width distributes over concatenation.
pub proof fn lemma_total_width_append(a: Seq<ChunkView>, b: Seq<ChunkView>)
    ensures
        total_width(a + b) == total_width(a) + total_width(b),
    decreases a.len(),
{
    if a.len() == 0 {
        assert(a + b =~= b);
    } else {
        assert((a + b).drop_first() =~= a.drop_first() + b);
        lemma_total_width_append(a.drop_first(), b);
    }
}

/// The first `count` columns of a sequence of chunks are exactly `count`
/// columns wide, unless the whole sequence is narrower.
pub proof fn lemma_take_columns_width(chunks: Seq<ChunkView>, count: nat)
    ensures
        total_width(take_columns(chunks, count)) == if count <= total_width(chunks) {
            count
        } else {
            total_width(chunks)
        },
    decreases chunks.len(),
{
    if chunks.len() == 0 || count == 0 {
        assert(take_columns(chunks, count) =~= Seq::<ChunkView>::empty());
        assert(total_width(Seq::<ChunkView>::empty()) == 0);
    } else {
        let c = chunks[0];
        let rest = chunks.drop_first();
        assert(total_width(chunks) == c.width() + total_width(rest));
        if c.width() == 0 {
            lemma_take_columns_width(rest, count);
            assert(take_columns(chunks, count) == take_columns(rest, count));
        } else if c.width() <= count {
            lemma_take_columns_width(rest, (count - c.width()) as nat);
            let tail = take_columns(rest, (count - c.width()) as nat);
            lemma_total_width_append(seq![c], tail);
            assert(take_columns(chunks, count) == seq![c] + tail);
            assert(seq![c].drop_first() =~= Seq::<ChunkView>::empty());
            assert(total_width(Seq::<ChunkView>::empty()) == 0);
            assert(total_width(seq![c]) == c.width());
        } else {
            let cut = ChunkView { text: c.text.take(count as int), style: c.style };
            assert(take_columns(chunks, count) == seq![cut]);
            assert(cut.width() == count);
            assert(seq![cut].drop_first() =~= Seq::<ChunkView>::empty());
            assert(total_width(Seq::<ChunkView>::empty()) == 0);
            assert(total_width(seq![cut]) == count);
        }
    }
}

/// Removing the first `count` columns leaves a sequence exactly `count`
/// columns narrower (or empty, if the sequence was narrower than `count`).
pub proof fn lemma_skip_columns_width(chunks: Seq<ChunkView>, count: nat)
    ensures
        total_width(skip_columns(chunks, count)) == if count <= total_width(chunks) {
            total_width(chunks) - count
        } else {
            0
        },
    decreases chunks.len(),
{
    if chunks.len() == 0 {
    } else if count == 0 {
    } else {
        let c = chunks[0];
        let rest = chunks.drop_first();
        if c.width() <= count {
            lemma_skip_columns_width(rest, (count - c.width()) as nat);
        } else {
            let cut = ChunkView { text: c.text.skip(count as int), style: c.style };
            assert((seq![cut] + rest).drop_first() =~= rest);
        }
    }
}

/// A line of chunks with its precomputed total display width, splittable
/// into width-bounded rows.
pub struct WeightedLine {
    chunks: Vec<StyledChunk>,
    width: usize,
}

impl View for WeightedLine {
    type V = Seq<ChunkView>;

    closed spec fn view(&self) -> Seq<ChunkView> {
        view_chunks(self.chunks@)
    }
}

impl WeightedLine {
    /// The stored width is the line's total display width.
    #[verifier::type_invariant]
    spec fn wf(self) -> bool {
        self.width == total_width(view_chunks(self.chunks@))
    }

    /// Build a line from its chunks, computing the total display width.
    pub fn new(chunks: Vec<StyledChunk>) -> (line: WeightedLine)
        requires
            total_width(view_chunks(chunks@)) <= usize::MAX,
        ensures
            line@ == view_chunks(chunks@),
    {
        let ghost v = view_chunks(chunks@);
        let mut width: usize = 0;
        let mut i: usize = 0;
        while i < chunks.len()
            invariant
                i <= chunks.len(),
                v == view_chunks(chunks@),
                total_width(v) <= usize::MAX,
                width == total_width(v.take(i as int)),
            decreases chunks.len() - i,
        {
            let w = chunks[i].width();
            proof {
                assert(v[i as int] == chunks@[i as int]@);
                assert(v.take(i + 1) =~= v.take(i as int) + seq![v[i as int]]);
                lemma_total_width_append(v.take(i as int), seq![v[i as int]]);
                assert(seq![v[i as int]].drop_first() =~= Seq::<ChunkView>::empty());
                assert(total_width(Seq::<ChunkView>::empty()) == 0);
                assert(v =~= v.take(i + 1) + v.skip(i + 1));
                lemma_total_width_append(v.take(i + 1), v.skip(i + 1));
                assert(total_width(seq![v[i as int]]) == v[i as int].width());
                assert(width + w == total_width(v.take(i + 1)));
            }
            width = width + w;
            i = i + 1;
        }
        proof {
            assert(v.take(chunks@.len() as int) =~= v);
        }
        WeightedLine { chunks, width }
    }

    /// The line's total display width, in columns.
    pub fn width(&self) -> (w: usize)
        ensures
            w == total_width(self@),
    {
        proof {
            use_type_invariant(self);
        }
        self.width
    }

    /// Split the line into rows of at most `max` columns, as `split_rows`
    /// describes: rows are filled exactly, cutting chunks where needed, and
    /// only the final row may be shorter.
    pub fn split(&self, max: usize) -> (rows: Vec<Vec<StyledChunk>>)
        ensures
            view_rows(rows@) == split_rows(self@, max as nat),
    {
        proof {
            use_type_invariant(self);
        }
        split_all(&self.chunks, self.width, max)
    }
}

/// Recursive worker for `WeightedLine::split`: `width` is the total display
/// width of `chunks`.
fn split_all(chunks: &Vec<StyledChunk>, width: usize, max: usize) -> (rows: Vec<Vec<StyledChunk>>)
    requires
        width == total_width(view_chunks(chunks@)),
    ensures
        view_rows(rows@) == split_rows(view_chunks(chunks@), max as nat),
    decreases width,
{
    let ghost v = view_chunks(chunks@);
    if max == 0 || width <= max {
        let (row, _rest) = take_skip(chunks, width);
        let mut rows: Vec<Vec<StyledChunk>> = Vec::new();
        rows.push(row);
        proof {
            assert(view_rows(rows@) =~= seq![take_columns(v, width as nat)]);
        }
        rows
    } else {
        let (row, rest) = take_skip(chunks, max);
        proof {
            lemma_skip_columns_width(v, max as nat);
        }
        let mut rows: Vec<Vec<StyledChunk>> = Vec::new();
        rows.push(row);
        let mut tail = split_all(&rest, width - max, max);
        rows.append(&mut tail);
        proof {
            assert(view_rows(rows@) =~= seq![take_columns(v, max as nat)]
                + split_rows(view_chunks(rest@), max as nat));
        }
        rows
    }
}

/// Cut a sequence of chunks at a column boundary: the first `count` columns
/// and the remainder, per `take_columns` and `skip_columns`.
fn take_skip(chunks: &Vec<StyledChunk>, count: usize) -> (parts: (
    Vec<StyledChunk>,
    Vec<StyledChunk>,
))
    ensures
        view_chunks(parts.0@) == take_columns(view_chunks(chunks@), count as nat),
        view_chunks(parts.1@) == skip_columns(view_chunks(chunks@), count as nat),
{
    let ghost v = view_chunks(chunks@);
    let mut first: Vec<StyledChunk> = Vec::new();
    let mut rest: Vec<StyledChunk> = Vec::new();
    let mut left: usize = count;
    let mut i: usize = 0;
    let n = chunks.len();
    proof {
        assert(chunks@.skip(0) =~= chunks@);
        assert(view_chunks(first@) =~= Seq::<ChunkView>::empty());
        assert(view_chunks(rest@) =~= Seq::<ChunkView>::empty());
        assert(Seq::<ChunkView>::empty() + take_columns(v, count as nat) =~= take_columns(
            v,
            count as nat,
        ));
        assert(Seq::<ChunkView>::empty() + skip_columns(v, count as nat) =~= skip_columns(
            v,
            count as nat,
        ));
    }
    while i < n && left > 0
        invariant
            i <= n,
            n == chunks@.len(),
            v == view_chunks(chunks@),
            take_columns(v, count as nat) == view_chunks(first@) + take_columns(
                view_chunks(chunks@.skip(i as int)),
                left as nat,
            ),
            skip_columns(v, count as nat) == view_chunks(rest@) + skip_columns(
                view_chunks(chunks@.skip(i as int)),
                left as nat,
            ),
        decreases n - i,
    {
        let ghost suffix = view_chunks(chunks@.skip(i as int));
        proof {
            assert(suffix[0] == chunks@[i as int]@);
            assert(suffix.drop_first() =~= view_chunks(chunks@.skip(i + 1)));
        }
        let w = chunks[i].width();
        if w == 0 {
            i = i + 1;
        } else if w <= left {
            let copy = chunks[i].duplicate();
            first.push(copy);
            proof {
                assert(view_chunks(first@) =~= view_chunks(first@.drop_last()) + seq![
                    chunks@[i as int]@,
                ]);
                assert(take_columns(suffix, left as nat) == seq![chunks@[i as int]@]
                    + take_columns(suffix.drop_first(), (left - w) as nat));
            }
            left = left - w;
            i = i + 1;
        } else {
            let text = chunks[i].text.as_str();
            let head_text = text.substring_char(0, left).to_owned();
            let tail_text = text.substring_char(left, text.unicode_len()).to_owned();
            let style = chunks[i].style;
            proof {
                assert(head_text@ =~= chunks@[i as int]@.text.take(left as int));
                assert(tail_text@ =~= chunks@[i as int]@.text.skip(left as int));
            }
            first.push(StyledChunk { text: head_text, style });
            rest.push(StyledChunk { text: tail_text, style });
            proof {
                assert(view_chunks(first@) =~= view_chunks(first@.drop_last()) + seq![
                    ChunkView { text: chunks@[i as int]@.text.take(left as int), style },
                ]);
                assert(view_chunks(rest@) =~= view_chunks(rest@.drop_last()) + seq![
                    ChunkView { text: chunks@[i as int]@.text.skip(left as int), style },
                ]);
                assert((seq![
                    ChunkView { text: chunks@[i as int]@.text.skip(left as int), style },
                ] + suffix.drop_first()).drop_first() =~= suffix.drop_first());
            }
            i = i + 1;
            left = 0;
        }
    }
    proof {
        if i == n {
            assert(view_chunks(chunks@.skip(i as int)) =~= Seq::<ChunkView>::empty());
        }
        assert(take_columns(view_chunks(chunks@.skip(i as int)), left as nat)
            =~= Seq::<ChunkView>::empty());
        assert(skip_columns(view_chunks(chunks@.skip(i as int)), left as nat)
            =~= view_chunks(chunks@.skip(i as int)));
    }
    while i < n
        invariant
            i <= n,
            n == chunks@.len(),
            v == view_chunks(chunks@),
            take_columns(v, count as nat) == view_chunks(first@),
            skip_columns(v, count as nat) == view_chunks(rest@) + view_chunks(
                chunks@.skip(i as int),
            ),
        decreases n - i,
    {
        let copy = chunks[i].duplicate();
        rest.push(copy);
        proof {
            assert(view_chunks(rest@) =~= view_chunks(rest@.drop_last()) + seq![
                chunks@[i as int]@,
            ]);
            assert(view_chunks(chunks@.skip(i as int)).drop_first() =~= view_chunks(
                chunks@.skip(i + 1),
            ));
            assert(view_chunks(chunks@.skip(i as int)) =~= seq![chunks@[i as int]@]
                + view_chunks(chunks@.skip(i + 1)));
        }
        i = i + 1;
    }
    proof {
        assert(view_chunks(chunks@.skip(i as int)) =~= Seq::<ChunkView>::empty());
    }
    (first, rest)
}

/// The styled characters of one chunk: each character paired with the
/// chunk's style.
pub open spec fn chunk_cells(chunk: ChunkView) -> Seq<(char, TextStyle)> {
    chunk.text.map_values(|character: char| (character, chunk.style))
}

/// The styled characters of a chunk sequence, chunk boundaries flattened
/// away: what the chunks spell, character by character, with styles.
pub open spec fn cells(chunks: Seq<ChunkView>) -> Seq<(char, TextStyle)>
    decreases chunks.len(),
{
    if chunks.len() == 0 {
        Seq::empty()
    } else {
        chunk_cells(chunks[0]) + cells(chunks.drop_first())
    }
}

/// The styled characters of a sequence of rows, row by row.
pub open spec fn rows_cells(rows: Seq<Seq<ChunkView>>) -> Seq<(char, TextStyle)>
    decreases rows.len(),
{
    if rows.len() == 0 {
        Seq::empty()
    } else {
        cells(rows[0]) + rows_cells(rows.drop_first())
    }
}

/// Cells distribute over concatenation.
pub proof fn lemma_cells_append(a: Seq<ChunkView>, b: Seq<ChunkView>)
    ensures
        cells(a + b) == cells(a) + cells(b),
    decreases a.len(),
{
    if a.len() == 0 {
        assert(a + b =~= b);
        assert(cells(a) + cells(b) =~= cells(b));
    } else {
        assert((a + b).drop_first() =~= a.drop_first() + b);
        lemma_cells_append(a.drop_first(), b);
        assert(chunk_cells(a[0]) + (cells(a.drop_first()) + cells(b)) =~= (chunk_cells(a[0])
            + cells(a.drop_first())) + cells(b));
    }
}

/// A chunk sequence of width zero spells nothing.
proof fn lemma_cells_of_zero_width(chunks: Seq<ChunkView>)
    requires
        total_width(chunks) == 0,
    ensures
        cells(chunks) == Seq::<(char, TextStyle)>::empty(),
    decreases chunks.len(),
{
    if chunks.len() == 0 {
    } else {
        assert(chunk_cells(chunks[0]) =~= Seq::<(char, TextStyle)>::empty());
        lemma_cells_of_zero_width(chunks.drop_first());
        assert(cells(chunks) =~= Seq::<(char, TextStyle)>::empty());
    }
}

proof fn lemma_cells_single(chunk: ChunkView)
    ensures
        cells(seq![chunk]) == chunk_cells(chunk),
{
    assert(seq![chunk].drop_first() =~= Seq::<ChunkView>::empty());
    assert(cells(Seq::<ChunkView>::empty()) == Seq::<(char, TextStyle)>::empty());
    assert(cells(seq![chunk]) =~= chunk_cells(chunk));
}

/// Cutting at a column boundary loses nothing: the first `count` columns and
/// the remainder together spell exactly what the whole sequence spells.
pub proof fn lemma_take_skip_cells(chunks: Seq<ChunkView>, count: nat)
    ensures
        cells(take_columns(chunks, count)) + cells(skip_columns(chunks, count)) == cells(chunks),
    decreases chunks.len(),
{
    if chunks.len() == 0 {
        assert(cells(take_columns(chunks, count)) + cells(skip_columns(chunks, count)) =~= cells(
            chunks,
        ));
    } else if count == 0 {
        assert(take_columns(chunks, count) =~= Seq::<ChunkView>::empty());
        assert(cells(Seq::<ChunkView>::empty()) + cells(chunks) =~= cells(chunks));
    } else {
        let c = chunks[0];
        let rest = chunks.drop_first();
        if c.width() == 0 {
            lemma_take_skip_cells(rest, count);
            assert(chunk_cells(c) =~= Seq::<(char, TextStyle)>::empty());
            assert(cells(chunks) =~= cells(rest));
        } else if c.width() <= count {
            lemma_take_skip_cells(rest, (count - c.width()) as nat);
            let tail = take_columns(rest, (count - c.width()) as nat);
            lemma_cells_append(seq![c], tail);
            lemma_cells_single(c);
            assert(chunk_cells(c) + (cells(tail) + cells(skip_columns(rest, (count
                - c.width()) as nat))) =~= (chunk_cells(c) + cells(tail)) + cells(
                skip_columns(rest, (count - c.width()) as nat),
            ));
        } else {
            let head = ChunkView { text: c.text.take(count as int), style: c.style };
            let tail = ChunkView { text: c.text.skip(count as int), style: c.style };
            lemma_cells_single(head);
            lemma_cells_append(seq![tail], rest);
            lemma_cells_single(tail);
            assert(chunk_cells(head) + chunk_cells(tail) =~= chunk_cells(c));
            assert(chunk_cells(head) + (chunk_cells(tail) + cells(rest)) =~= (chunk_cells(head)
                + chunk_cells(tail)) + cells(rest));
        }
    }
}

/// Splitting loses nothing: the rows of a split spell, in order, exactly the
/// styled characters of the line — no character dropped, duplicated or
/// restyled by wrapping.
pub proof fn lemma_split_preserves_text(chunks: Seq<ChunkView>, max: nat)
    ensures
        rows_cells(split_rows(chunks, max)) == cells(chunks),
    decreases total_width(chunks),
{
    let w = total_width(chunks);
    if max == 0 || w <= max {
        let row = take_columns(chunks, w);
        lemma_take_skip_cells(chunks, w);
        lemma_skip_columns_width(chunks, w);
        lemma_cells_of_zero_width(skip_columns(chunks, w));
        assert(seq![row].drop_first() =~= Seq::<Seq<ChunkView>>::empty());
        assert(rows_cells(Seq::<Seq<ChunkView>>::empty()) == Seq::<(char, TextStyle)>::empty());
        assert(rows_cells(seq![row]) =~= cells(row));
        assert(cells(row) =~= cells(row) + cells(skip_columns(chunks, w)));
    } else {
        lemma_skip_columns_width(chunks, max);
        lemma_take_skip_cells(chunks, max);
        lemma_split_preserves_text(skip_columns(chunks, max), max);
        let row = take_columns(chunks, max);
        let rest = split_rows(skip_columns(chunks, max), max);
        assert((seq![row] + rest).drop_first() =~= rest);
        assert((seq![row] + rest)[0] == row);
        assert(rows_cells(seq![row] + rest) =~= cells(row) + rows_cells(rest));
    }
}

/// A line whose width is at most the column bound splits into exactly one
/// row, and that row is the whole line's content.
pub proof fn lemma_split_single_row(chunks: Seq<ChunkView>, max: nat)
    requires
        total_width(chunks) <= max,
    ensures
        split_rows(chunks, max).len() == 1,
        split_rows(chunks, max)[0] == take_columns(chunks, total_width(chunks)),
{
}

/// A line wider than the column bound splits into exactly as many rows as it
/// takes to hold its width at `max` columns a row: the rows together offer at
/// least `width` columns, while one row fewer would not suffice.  In other
/// words, the row count is the least integer at or above `width / max`.
pub proof fn lemma_split_row_count(chunks: Seq<ChunkView>, max: nat)
    requires
        max >= 1,
    ensures
        split_rows(chunks, max).len() >= 1,
        split_rows(chunks, max).len() * max >= total_width(chunks),
        total_width(chunks) > 0 ==> (split_rows(chunks, max).len() - 1) * max
            < total_width(chunks),
    decreases total_width(chunks),
{
    let w = total_width(chunks);
    if w <= max {
        assert(split_rows(chunks, max).len() == 1);
    } else {
        lemma_skip_columns_width(chunks, max);
        let rest = skip_columns(chunks, max);
        lemma_split_row_count(rest, max);
        let sub = split_rows(rest, max).len();
        assert(split_rows(chunks, max).len() == 1 + sub);
        assert((1 + sub) * max == max + sub * max) by (nonlinear_arith);
        assert(((1 + sub) - 1) * max == ((sub - 1) * max + max)) by (nonlinear_arith);
    }
}

/// Every row of a split is at most `max` columns wide, and every row but the
/// last is exactly `max` columns wide.
pub proof fn lemma_split_rows_widths(chunks: Seq<ChunkView>, max: nat)
    requires
        max >= 1,
    ensures
        forall|i: int|
            0 <= i < split_rows(chunks, max).len() ==> total_width(
                #[trigger] split_rows(chunks, max)[i],
            ) <= max,
        forall|i: int|
            0 <= i && i + 1 < split_rows(chunks, max).len() ==> total_width(
                #[trigger] split_rows(chunks, max)[i],
            ) == max,
    decreases total_width(chunks),
{
    let w = total_width(chunks);
    lemma_take_columns_width(chunks, if w <= max {
        w
    } else {
        max
    });
    if w > max {
        lemma_skip_columns_width(chunks, max);
        let rest = skip_columns(chunks, max);
        lemma_split_rows_widths(rest, max);
        assert forall|i: int| 0 <= i < split_rows(chunks, max).len() implies total_width(
            #[trigger] split_rows(chunks, max)[i],
        ) <= max by {
            if i > 0 {
                assert(split_rows(chunks, max)[i] == split_rows(rest, max)[i - 1]);
            }
        };
        assert forall|i: int| 0 <= i && i + 1 < split_rows(chunks, max).len() implies total_width(
            #[trigger] split_rows(chunks, max)[i],
        ) == max by {
            if i > 0 {
                assert(split_rows(chunks, max)[i] == split_rows(rest, max)[i - 1]);
            }
        };
    }
}

} // verus!
