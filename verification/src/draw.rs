//! The line drawer.
//!
//! A `TextDrawer` is built once per line per render pass: construction
//! resolves the layout and validates that the line can be drawn at all, and
//! `draw` consumes the drawer and emits the full command sequence for the
//! line.  Writing the commands to a terminal backend is the caller's job;
//! `draw_commands` says exactly which commands come out and in which order.

use vstd::prelude::*;
use crate::layout::{compute_spec, Alignment, Layout, Positioning, WindowSize};
use crate::style::{Colors, TextStyle};
use crate::text::{split_rows, total_width, view_chunks, ChunkView, StyledChunk, WeightedLine};

verus! {

/// A terminal narrower than this many columns is too small to wrap into.
pub const MINIMUM_LINE_LENGTH: u16 = 10;

/// Why a drawer could not be built: the line does not fit and the window is
/// too narrow for wrapping to make sense.
#[derive(Clone, Copy, Debug, PartialEq, Eq, Structural)]
pub enum RenderError {
    TerminalTooSmall,
}

/// One terminal draw operation.
#[derive(Debug, PartialEq, Eq)]
pub enum DrawCommand {
    /// Move the cursor to a column of the current row.
    MoveToColumn(u16),
    /// Move the cursor down some number of rows.
    MoveDown(u16),
    /// Print a run of text with its style applied.
    Print(StyledChunk),
    /// Set the foreground and background colors.
    SetColors(Colors),
}

/// The mathematical value of a draw command.
#[verifier::ext_equal]
pub ghost enum CommandView {
    MoveToColumn(u16),
    MoveDown(u16),
    Print(ChunkView),
    SetColors(Colors),
}

impl View for DrawCommand {
    type V = CommandView;

    open spec fn view(&self) -> CommandView {
        match self {
            DrawCommand::MoveToColumn(column) => CommandView::MoveToColumn(*column),
            DrawCommand::MoveDown(rows) => CommandView::MoveDown(*rows),
            DrawCommand::Print(chunk) => CommandView::Print(chunk@),
            DrawCommand::SetColors(colors) => CommandView::SetColors(*colors),
        }
    }
}

/// The command values of a sequence of commands.
pub open spec fn view_commands(commands: Seq<DrawCommand>) -> Seq<CommandView> {
    commands.map_values(|c: DrawCommand| c@)
}

/// The commands one chunk contributes: its print, followed by a reassertion
/// of the default colors whenever its style is not the plain one (the styling
/// backend resets colors as a side effect of applying any attribute).
pub open spec fn chunk_commands(chunk: ChunkView, defaults: Colors) -> Seq<CommandView> {
    if chunk.style == TextStyle::plain_spec() {
        seq![CommandView::Print(chunk)]
    } else {
        seq![CommandView::Print(chunk), CommandView::SetColors(defaults)]
    }
}

/// The commands of one row's chunks, in order.
pub open spec fn row_commands(row: Seq<ChunkView>, defaults: Colors) -> Seq<CommandView>
    decreases row.len(),
{
    if row.len() == 0 {
        Seq::empty()
    } else {
        chunk_commands(row[0], defaults) + row_commands(row.drop_first(), defaults)
    }
}

/// The commands of all rows: every row, the first included, is repositioned
/// to `start` before its chunks are printed, and every row after the first is
/// preceded by a one-row cursor move down.
pub open spec fn rows_commands(
    rows: Seq<Seq<ChunkView>>,
    start: u16,
    defaults: Colors,
    first: bool,
) -> Seq<CommandView>
    decreases rows.len(),
{
    if rows.len() == 0 {
        Seq::empty()
    } else {
        (if first {
            Seq::empty()
        } else {
            seq![CommandView::MoveDown(1u16)]
        }) + seq![CommandView::MoveToColumn(start)] + row_commands(rows[0], defaults)
            + rows_commands(rows.drop_first(), start, defaults, false)
    }
}

/// Everything `TextDrawer::draw` emits: one initial move to the start column,
/// then the rows of the line split at the resolved maximum width.
pub open spec fn draw_commands(
    line: Seq<ChunkView>,
    positioning: Positioning,
    defaults: Colors,
) -> Seq<CommandView> {
    seq![CommandView::MoveToColumn(positioning.start_column)] + rows_commands(
        split_rows(line, positioning.max_line_length as nat),
        positioning.start_column,
        defaults,
        true,
    )
}

/// `row_commands` distributes over concatenation.
pub proof fn lemma_row_commands_append(a: Seq<ChunkView>, b: Seq<ChunkView>, defaults: Colors)
    ensures
        row_commands(a + b, defaults) == row_commands(a, defaults) + row_commands(b, defaults),
    decreases a.len(),
{
    if a.len() == 0 {
        assert(a + b =~= b);
        assert(Seq::<CommandView>::empty() + row_commands(b, defaults) =~= row_commands(
            b,
            defaults,
        ));
    } else {
        assert((a + b).drop_first() =~= a.drop_first() + b);
        lemma_row_commands_append(a.drop_first(), b, defaults);
        assert(chunk_commands(a[0], defaults) + (row_commands(a.drop_first(), defaults)
            + row_commands(b, defaults)) =~= (chunk_commands(a[0], defaults) + row_commands(
            a.drop_first(),
            defaults,
        )) + row_commands(b, defaults));
    }
}

/// Appending one row to the end of a row sequence appends its block of
/// commands: a move down (unless it is the very first row), the move to the
/// start column, and its chunks' commands.
pub proof fn lemma_rows_commands_push(
    rows: Seq<Seq<ChunkView>>,
    row: Seq<ChunkView>,
    start: u16,
    defaults: Colors,
    first: bool,
)
    ensures
        rows_commands(rows.push(row), start, defaults, first) == rows_commands(
            rows,
            start,
            defaults,
            first,
        ) + (if rows.len() == 0 && first {
            Seq::<CommandView>::empty()
        } else {
            seq![CommandView::MoveDown(1u16)]
        }) + seq![CommandView::MoveToColumn(start)] + row_commands(row, defaults),
    decreases rows.len(),
{
    if rows.len() == 0 {
        assert(rows.push(row).drop_first() =~= Seq::<Seq<ChunkView>>::empty());
        assert(rows.push(row)[0] == row);
        assert(rows_commands(Seq::<Seq<ChunkView>>::empty(), start, defaults, false)
            == Seq::<CommandView>::empty());
        assert(rows_commands(rows.push(row), start, defaults, first) =~= rows_commands(
            rows,
            start,
            defaults,
            first,
        ) + (if first {
            Seq::<CommandView>::empty()
        } else {
            seq![CommandView::MoveDown(1u16)]
        }) + seq![CommandView::MoveToColumn(start)] + row_commands(row, defaults));
    } else {
        assert(rows.push(row).drop_first() =~= rows.drop_first().push(row));
        assert(rows.push(row)[0] == rows[0]);
        lemma_rows_commands_push(rows.drop_first(), row, start, defaults, false);
        assert(rows_commands(rows.push(row), start, defaults, first) =~= rows_commands(
            rows,
            start,
            defaults,
            first,
        ) + seq![CommandView::MoveDown(1u16)] + seq![CommandView::MoveToColumn(start)]
            + row_commands(row, defaults));
    }
}

/// A drawer, ready to emit one line: the line, its resolved positioning and
/// the default color pair were captured at construction, and drawing consumes
/// the drawer, so one validated instance draws at most once.
pub struct TextDrawer {
    line: WeightedLine,
    positioning: Positioning,
    default_colors: Colors,
}

impl TextDrawer {
    /// The captured line's chunk values.
    pub closed spec fn line_view(self) -> Seq<ChunkView> {
        self.line@
    }

    /// The positioning resolved at construction.
    pub closed spec fn positioning_view(self) -> Positioning {
        self.positioning
    }

    /// The default color pair captured at construction.
    pub closed spec fn defaults_view(self) -> Colors {
        self.default_colors
    }

    /// The validation `new` performs: a line wider than the resolved maximum
    /// is acceptable (it wraps) unless that maximum is at or below
    /// `MINIMUM_LINE_LENGTH` columns, in which case the terminal is too
    /// small for this line.
    pub open spec fn fits_spec(width: nat, positioning: Positioning) -> bool {
        !(width > positioning.max_line_length && positioning.max_line_length
            <= MINIMUM_LINE_LENGTH)
    }

    /// Build a drawer for `line`: resolve the layout for the window and the
    /// line's width, and validate it.  Fails exactly when the validation
    /// fails, and then emits nothing.
    pub fn new(
        alignment: &Alignment,
        line: WeightedLine,
        dimensions: &WindowSize,
        default_colors: &Colors,
    ) -> (result: Result<TextDrawer, RenderError>)
        ensures
            ({
                let positioning = compute_spec(*alignment, *dimensions, total_width(line@));
                match result {
                    Ok(drawer) => Self::fits_spec(total_width(line@), positioning)
                        && drawer.line_view() == line@ && drawer.positioning_view() == positioning
                        && drawer.defaults_view() == *default_colors,
                    Err(error) => error == RenderError::TerminalTooSmall && !Self::fits_spec(
                        total_width(line@),
                        positioning,
                    ),
                }
            }),
    {
        let text_length = line.width();
        let layout = Layout { alignment: *alignment };
        let positioning = layout.compute(dimensions, text_length);
        if text_length > positioning.max_line_length as usize && positioning.max_line_length
            <= MINIMUM_LINE_LENGTH {
            Err(RenderError::TerminalTooSmall)
        } else {
            Ok(TextDrawer { line, positioning, default_colors: *default_colors })
        }
    }

    /// Emit the line as draw commands, consuming the drawer.  The result is
    /// exactly `draw_commands`: a move to the start column, then each row of
    /// the line split at the resolved maximum width — repositioned to the
    /// start column, moved one row down for every row after the first, its
    /// chunks printed in order, and the default colors reasserted after every
    /// chunk whose style is not the plain one.
    pub fn draw(self) -> (commands: Vec<DrawCommand>)
        ensures
            view_commands(commands@) == draw_commands(
                self.line_view(),
                self.positioning_view(),
                self.defaults_view(),
            ),
    {
        let TextDrawer { line, positioning, default_colors } = self;
        let start = positioning.start_column;
        let ghost rows_v = split_rows(line@, positioning.max_line_length as nat);
        let mut commands: Vec<DrawCommand> = Vec::new();
        commands.push(DrawCommand::MoveToColumn(start));
        proof {
            assert(view_commands(commands@) =~= seq![CommandView::MoveToColumn(start)]);
            assert(seq![CommandView::MoveToColumn(start)] + rows_commands(
                rows_v.take(0),
                start,
                default_colors,
                true,
            ) =~= seq![CommandView::MoveToColumn(start)]);
        }
        let rows = line.split(positioning.max_line_length as usize);
        let row_count = rows.len();
        let mut i: usize = 0;
        while i < row_count
            invariant
                row_count == rows@.len(),
                i <= row_count,
                rows_v == crate::text::view_rows(rows@),
                view_commands(commands@) == seq![CommandView::MoveToColumn(start)]
                    + rows_commands(rows_v.take(i as int), start, default_colors, true),
            decreases row_count - i,
        {
            let ghost commands_at_row = view_commands(commands@);
            if i > 0 {
                commands.push(DrawCommand::MoveDown(1));
            }
            commands.push(DrawCommand::MoveToColumn(start));
            let ghost block_head = if i > 0 {
                seq![CommandView::MoveDown(1u16), CommandView::MoveToColumn(start)]
            } else {
                seq![CommandView::MoveToColumn(start)]
            };
            proof {
                assert(rows_v[i as int] == view_chunks(rows@[i as int]@));
                assert(view_commands(commands@) =~= commands_at_row + block_head);
                assert(view_commands(commands@) =~= commands_at_row + block_head + row_commands(
                    view_chunks(rows@[i as int]@).take(0),
                    default_colors,
                ));
            }
            let row = &rows[i];
            let ghost row_v = view_chunks(row@);
            let chunk_count = row.len();
            let mut j: usize = 0;
            while j < chunk_count
                invariant
                    chunk_count == row@.len(),
                    j <= chunk_count,
                    row_v == view_chunks(row@),
                    view_commands(commands@) == commands_at_row + block_head + row_commands(
                        row_v.take(j as int),
                        default_colors,
                    ),
                decreases chunk_count - j,
            {
                let chunk = row[j].duplicate();
                let plain = chunk.style == TextStyle::plain();
                let ghost chunk_v = row_v[j as int];
                proof {
                    assert(chunk_v == row@[j as int]@);
                }
                let ghost commands_before = view_commands(commands@);
                commands.push(DrawCommand::Print(chunk));
                if !plain {
                    commands.push(DrawCommand::SetColors(default_colors));
                }
                proof {
                    assert(view_commands(commands@) =~= commands_before + chunk_commands(
                        chunk_v,
                        default_colors,
                    ));
                    assert(row_v.take(j + 1) =~= row_v.take(j as int).push(chunk_v));
                    assert(row_v.take(j as int).push(chunk_v) =~= row_v.take(j as int) + seq![
                        chunk_v,
                    ]);
                    lemma_row_commands_append(row_v.take(j as int), seq![chunk_v], default_colors);
                    assert(seq![chunk_v].drop_first() =~= Seq::<ChunkView>::empty());
                    assert(row_commands(Seq::<ChunkView>::empty(), default_colors)
                        == Seq::<CommandView>::empty());
                    assert(row_commands(seq![chunk_v], default_colors) =~= chunk_commands(
                        chunk_v,
                        default_colors,
                    ));
                    assert(view_commands(commands@) =~= commands_at_row + block_head
                        + row_commands(row_v.take(j + 1), default_colors));
                }
                j = j + 1;
            }
            proof {
                assert(row_v.take(chunk_count as int) =~= row_v);
                assert(rows_v.take(i + 1) =~= rows_v.take(i as int).push(rows_v[i as int]));
                lemma_rows_commands_push(
                    rows_v.take(i as int),
                    rows_v[i as int],
                    start,
                    default_colors,
                    true,
                );
                assert(view_commands(commands@) =~= seq![CommandView::MoveToColumn(start)]
                    + rows_commands(rows_v.take(i + 1), start, default_colors, true));
            }
            i = i + 1;
        }
        proof {
            assert(rows_v.take(row_count as int) =~= rows_v);
        }
        commands
    }
}

/// A print of a chunk whose style is not the plain one.
pub open spec fn is_styled_print(command: CommandView) -> bool {
    command matches CommandView::Print(chunk) && chunk.style != TextStyle::plain_spec()
}

/// Color resets are exactly paired with styled prints: a reset to the default
/// color pair immediately follows every print of a chunk whose style differs
/// from the plain one, and nothing else is ever followed by a reset — in
/// particular, no reset follows the print of a plainly styled chunk.
pub open spec fn resets_paired(commands: Seq<CommandView>, defaults: Colors) -> bool {
    (forall|k: int|
        0 <= k < commands.len() && is_styled_print(#[trigger] commands[k]) ==> k + 1
            < commands.len() && commands[k + 1] == CommandView::SetColors(defaults)) && (forall|
        k: int,
    |
        0 <= k < commands.len() && (#[trigger] commands[k]) is SetColors ==> k >= 1
            && is_styled_print(commands[k - 1]) && commands[k] == CommandView::SetColors(defaults))
}

/// `resets_paired`, plus: the sequence does not end in a styled print still
/// waiting for its reset.  Closed under concatenation.
pub open spec fn resets_closed(commands: Seq<CommandView>, defaults: Colors) -> bool {
    resets_paired(commands, defaults) && (commands.len() > 0 ==> !is_styled_print(commands.last()))
}

proof fn lemma_resets_closed_concat(a: Seq<CommandView>, b: Seq<CommandView>, defaults: Colors)
    requires
        resets_closed(a, defaults),
        resets_closed(b, defaults),
    ensures
        resets_closed(a + b, defaults),
{
    let c = a + b;
    assert forall|k: int|
        0 <= k < c.len() && is_styled_print(#[trigger] c[k]) implies k + 1 < c.len() && c[k + 1]
        == CommandView::SetColors(defaults) by {
        if k < a.len() {
            assert(c[k] == a[k]);
            assert(k + 1 < a.len());
            assert(c[k + 1] == a[k + 1]);
        } else {
            assert(c[k] == b[k - a.len()]);
            assert(k - a.len() + 1 < b.len());
            assert(c[k + 1] == b[k - a.len() + 1]);
        }
    };
    assert forall|k: int|
        0 <= k < c.len() && (#[trigger] c[k]) is SetColors implies k >= 1 && is_styled_print(
        c[k - 1],
    ) && c[k] == CommandView::SetColors(defaults) by {
        if k < a.len() {
            assert(c[k] == a[k]);
            assert(c[k - 1] == a[k - 1]);
        } else {
            let j = k - a.len();
            assert(c[k] == b[j]);
            assert(j >= 1);
            assert(c[k - 1] == b[j - 1]);
        }
    };
    if c.len() > 0 {
        if b.len() > 0 {
            assert(c.last() == b.last());
        } else {
            assert(c =~= a);
        }
    }
}

proof fn lemma_chunk_commands_resets(chunk: ChunkView, defaults: Colors)
    ensures
        resets_closed(chunk_commands(chunk, defaults), defaults),
{
}

proof fn lemma_row_commands_resets(row: Seq<ChunkView>, defaults: Colors)
    ensures
        resets_closed(row_commands(row, defaults), defaults),
    decreases row.len(),
{
    if row.len() == 0 {
    } else {
        lemma_chunk_commands_resets(row[0], defaults);
        lemma_row_commands_resets(row.drop_first(), defaults);
        lemma_resets_closed_concat(
            chunk_commands(row[0], defaults),
            row_commands(row.drop_first(), defaults),
            defaults,
        );
    }
}

proof fn lemma_rows_commands_resets(
    rows: Seq<Seq<ChunkView>>,
    start: u16,
    defaults: Colors,
    first: bool,
)
    ensures
        resets_closed(rows_commands(rows, start, defaults, first), defaults),
    decreases rows.len(),
{
    if rows.len() == 0 {
    } else {
        let head = if first {
            Seq::<CommandView>::empty()
        } else {
            seq![CommandView::MoveDown(1u16)]
        };
        lemma_row_commands_resets(rows[0], defaults);
        lemma_rows_commands_resets(rows.drop_first(), start, defaults, false);
        lemma_resets_closed_concat(head, seq![CommandView::MoveToColumn(start)], defaults);
        lemma_resets_closed_concat(
            head + seq![CommandView::MoveToColumn(start)],
            row_commands(rows[0], defaults),
            defaults,
        );
        lemma_resets_closed_concat(
            head + seq![CommandView::MoveToColumn(start)] + row_commands(rows[0], defaults),
            rows_commands(rows.drop_first(), start, defaults, false),
            defaults,
        );
    }
}

/// Whatever line, positioning and default colors a drawer was built with, the
/// commands it emits have their color resets exactly paired with the styled
/// prints: one reset to the defaults immediately after each print of a chunk
/// styled other than plainly, and no reset anywhere else.
pub proof fn lemma_draw_commands_resets(
    line: Seq<ChunkView>,
    positioning: Positioning,
    defaults: Colors,
)
    ensures
        resets_paired(draw_commands(line, positioning, defaults), defaults),
{
    let rows = split_rows(line, positioning.max_line_length as nat);
    lemma_rows_commands_resets(rows, positioning.start_column, defaults, true);
    lemma_resets_closed_concat(
        seq![CommandView::MoveToColumn(positioning.start_column)],
        rows_commands(rows, positioning.start_column, defaults, true),
        defaults,
    );
}

/// Whether the output being written is still anchored at column `start`
/// after one command, given whether it was before: a move to `start` anchors
/// it, a move to any other column or down a row forfeits it, and printing or
/// setting colors continues the anchored run.
pub open spec fn step_at_start(command: CommandView, start: u16, at_start: bool) -> bool {
    match command {
        CommandView::MoveToColumn(column) => column == start,
        CommandView::MoveDown(_) => false,
        CommandView::Print(_) => at_start,
        CommandView::SetColors(_) => at_start,
    }
}

/// Whether the output is still anchored at column `start` after a whole
/// command sequence, given whether it was before it.
pub open spec fn at_start_after(commands: Seq<CommandView>, start: u16, at_start: bool) -> bool
    decreases commands.len(),
{
    if commands.len() == 0 {
        at_start
    } else {
        at_start_after(commands.drop_first(), start, step_at_start(commands[0], start, at_start))
    }
}

/// Every print in the sequence is part of a run anchored at column `start`:
/// walking the commands from an anchoring state `at_start`, each print is
/// reached after a move to `start` with no other cursor move in between.
pub open spec fn prints_at_start(commands: Seq<CommandView>, start: u16, at_start: bool) -> bool
    decreases commands.len(),
{
    if commands.len() == 0 {
        true
    } else {
        ((commands[0] is Print) ==> at_start) && prints_at_start(
            commands.drop_first(),
            start,
            step_at_start(commands[0], start, at_start),
        )
    }
}

proof fn lemma_prints_at_start_append(
    a: Seq<CommandView>,
    b: Seq<CommandView>,
    start: u16,
    at_start: bool,
)
    ensures
        at_start_after(a + b, start, at_start) == at_start_after(
            b,
            start,
            at_start_after(a, start, at_start),
        ),
        prints_at_start(a + b, start, at_start) == (prints_at_start(a, start, at_start)
            && prints_at_start(b, start, at_start_after(a, start, at_start))),
    decreases a.len(),
{
    if a.len() == 0 {
        assert(a + b =~= b);
    } else {
        assert((a + b).drop_first() =~= a.drop_first() + b);
        lemma_prints_at_start_append(
            a.drop_first(),
            b,
            start,
            step_at_start(a[0], start, at_start),
        );
    }
}

proof fn lemma_prints_at_start_single(command: CommandView, start: u16, at_start: bool)
    ensures
        at_start_after(seq![command], start, at_start) == step_at_start(command, start, at_start),
        prints_at_start(seq![command], start, at_start) == ((command is Print) ==> at_start),
{
    assert(seq![command].drop_first() =~= Seq::<CommandView>::empty());
    assert(at_start_after(Seq::<CommandView>::empty(), start, step_at_start(
        command,
        start,
        at_start,
    )) == step_at_start(command, start, at_start));
    assert(prints_at_start(Seq::<CommandView>::empty(), start, step_at_start(
        command,
        start,
        at_start,
    )));
}

proof fn lemma_row_commands_positioned(row: Seq<ChunkView>, defaults: Colors, start: u16)
    ensures
        prints_at_start(row_commands(row, defaults), start, true),
    decreases row.len(),
{
    if row.len() == 0 {
    } else {
        let head = chunk_commands(row[0], defaults);
        let tail = row_commands(row.drop_first(), defaults);
        lemma_row_commands_positioned(row.drop_first(), defaults, start);
        let print = CommandView::Print(row[0]);
        let reset = CommandView::SetColors(defaults);
        lemma_prints_at_start_single(print, start, true);
        if row[0].style == TextStyle::plain_spec() {
            assert(head =~= seq![print]);
        } else {
            assert(head =~= seq![print] + seq![reset]);
            lemma_prints_at_start_single(reset, start, true);
            lemma_prints_at_start_append(seq![print], seq![reset], start, true);
        }
        assert(prints_at_start(head, start, true));
        assert(at_start_after(head, start, true) == true);
        lemma_prints_at_start_append(head, tail, start, true);
    }
}

proof fn lemma_row_commands_keeps_anchor(row: Seq<ChunkView>, defaults: Colors, start: u16)
    ensures
        at_start_after(row_commands(row, defaults), start, true) == true,
    decreases row.len(),
{
    if row.len() == 0 {
    } else {
        let head = chunk_commands(row[0], defaults);
        let tail = row_commands(row.drop_first(), defaults);
        lemma_row_commands_keeps_anchor(row.drop_first(), defaults, start);
        let print = CommandView::Print(row[0]);
        let reset = CommandView::SetColors(defaults);
        lemma_prints_at_start_single(print, start, true);
        if row[0].style == TextStyle::plain_spec() {
            assert(head =~= seq![print]);
        } else {
            assert(head =~= seq![print] + seq![reset]);
            lemma_prints_at_start_single(reset, start, true);
            lemma_prints_at_start_append(seq![print], seq![reset], start, true);
        }
        assert(at_start_after(head, start, true) == true);
        lemma_prints_at_start_append(head, tail, start, true);
    }
}

proof fn lemma_rows_commands_positioned(
    rows: Seq<Seq<ChunkView>>,
    start: u16,
    defaults: Colors,
    first: bool,
    at_start: bool,
)
    ensures
        prints_at_start(rows_commands(rows, start, defaults, first), start, at_start),
    decreases rows.len(),
{
    if rows.len() == 0 {
    } else {
        let head = if first {
            Seq::<CommandView>::empty()
        } else {
            seq![CommandView::MoveDown(1u16)]
        };
        let reposition = seq![CommandView::MoveToColumn(start)];
        let row = row_commands(rows[0], defaults);
        let tail = rows_commands(rows.drop_first(), start, defaults, false);
        if !first {
            lemma_prints_at_start_single(CommandView::MoveDown(1u16), start, at_start);
        }
        let ghost after_head = at_start_after(head, start, at_start);
        lemma_prints_at_start_single(CommandView::MoveToColumn(start), start, after_head);
        lemma_prints_at_start_append(head, reposition, start, at_start);
        lemma_row_commands_positioned(rows[0], defaults, start);
        lemma_row_commands_keeps_anchor(rows[0], defaults, start);
        lemma_prints_at_start_append(head + reposition, row, start, at_start);
        lemma_rows_commands_positioned(rows.drop_first(), start, defaults, false, true);
        lemma_prints_at_start_append(head + reposition + row, tail, start, at_start);
    }
}

/// How many one-row cursor moves down a command sequence holds.
pub open spec fn count_move_down(commands: Seq<CommandView>) -> nat
    decreases commands.len(),
{
    if commands.len() == 0 {
        0
    } else {
        (if commands[0] is MoveDown {
            1nat
        } else {
            0nat
        }) + count_move_down(commands.drop_first())
    }
}

proof fn lemma_count_move_down_append(a: Seq<CommandView>, b: Seq<CommandView>)
    ensures
        count_move_down(a + b) == count_move_down(a) + count_move_down(b),
    decreases a.len(),
{
    if a.len() == 0 {
        assert(a + b =~= b);
    } else {
        assert((a + b).drop_first() =~= a.drop_first() + b);
        lemma_count_move_down_append(a.drop_first(), b);
    }
}

proof fn lemma_count_move_down_single(command: CommandView)
    ensures
        count_move_down(seq![command]) == if command is MoveDown {
            1nat
        } else {
            0nat
        },
{
    assert(seq![command].drop_first() =~= Seq::<CommandView>::empty());
    assert(count_move_down(Seq::<CommandView>::empty()) == 0);
}

proof fn lemma_row_commands_no_move_down(row: Seq<ChunkView>, defaults: Colors)
    ensures
        count_move_down(row_commands(row, defaults)) == 0,
    decreases row.len(),
{
    if row.len() == 0 {
    } else {
        let print = CommandView::Print(row[0]);
        let reset = CommandView::SetColors(defaults);
        lemma_count_move_down_single(print);
        if row[0].style != TextStyle::plain_spec() {
            assert(chunk_commands(row[0], defaults) =~= seq![print] + seq![reset]);
            lemma_count_move_down_single(reset);
            lemma_count_move_down_append(seq![print], seq![reset]);
        } else {
            assert(chunk_commands(row[0], defaults) =~= seq![print]);
        }
        lemma_row_commands_no_move_down(row.drop_first(), defaults);
        lemma_count_move_down_append(
            chunk_commands(row[0], defaults),
            row_commands(row.drop_first(), defaults),
        );
    }
}

proof fn lemma_rows_commands_move_down(
    rows: Seq<Seq<ChunkView>>,
    start: u16,
    defaults: Colors,
    first: bool,
)
    ensures
        count_move_down(rows_commands(rows, start, defaults, first)) == if rows.len() == 0 {
            0nat
        } else if first {
            (rows.len() - 1) as nat
        } else {
            rows.len() as nat
        },
    decreases rows.len(),
{
    if rows.len() == 0 {
    } else {
        let head = if first {
            Seq::<CommandView>::empty()
        } else {
            seq![CommandView::MoveDown(1u16)]
        };
        let reposition = seq![CommandView::MoveToColumn(start)];
        let row = row_commands(rows[0], defaults);
        let tail = rows_commands(rows.drop_first(), start, defaults, false);
        if !first {
            lemma_count_move_down_single(CommandView::MoveDown(1u16));
        }
        lemma_count_move_down_single(CommandView::MoveToColumn(start));
        lemma_row_commands_no_move_down(rows[0], defaults);
        lemma_rows_commands_move_down(rows.drop_first(), start, defaults, false);
        lemma_count_move_down_append(head, reposition);
        lemma_count_move_down_append(head + reposition, row);
        lemma_count_move_down_append(head + reposition + row, tail);
    }
}

/// The emitted commands hold exactly one row break fewer than the line has
/// rows: a line whose width fits the resolved maximum is drawn as one row
/// with no move down at all, and a wider line is drawn with one move down per
/// additional row of its split.
pub proof fn lemma_draw_commands_row_breaks(
    line: Seq<ChunkView>,
    positioning: Positioning,
    defaults: Colors,
)
    ensures
        count_move_down(draw_commands(line, positioning, defaults)) + 1 == split_rows(
            line,
            positioning.max_line_length as nat,
        ).len(),
{
    let start = positioning.start_column;
    let rows = split_rows(line, positioning.max_line_length as nat);
    lemma_count_move_down_single(CommandView::MoveToColumn(start));
    lemma_rows_commands_move_down(rows, start, defaults, true);
    lemma_count_move_down_append(
        seq![CommandView::MoveToColumn(start)],
        rows_commands(rows, start, defaults, true),
    );
}

/// Every row is repositioned before it is printed: however the cursor stood
/// when drawing began, each print a drawer emits comes after a move to the
/// start column with no other cursor movement in between, so every row of
/// output is anchored at `start_column`.
pub proof fn lemma_draw_commands_positioned(
    line: Seq<ChunkView>,
    positioning: Positioning,
    defaults: Colors,
)
    ensures
        prints_at_start(
            draw_commands(line, positioning, defaults),
            positioning.start_column,
            false,
        ),
{
    let start = positioning.start_column;
    let rows = split_rows(line, positioning.max_line_length as nat);
    let first_move = seq![CommandView::MoveToColumn(start)];
    lemma_prints_at_start_single(CommandView::MoveToColumn(start), start, false);
    lemma_rows_commands_positioned(rows, start, defaults, true, true);
    lemma_prints_at_start_append(
        first_move,
        rows_commands(rows, start, defaults, true),
        start,
        false,
    );
}

} // verus!
