//! What the engine asks the screen to show: draw requests relative to the
//! centre of the screen, and where aligned text starts.

use vstd::prelude::*;
use crate::config::{count_in, Profile};
use crate::decimal::{decimal, decimal_digits};
use crate::practice::icons::Icon;
use crate::practice::util::{offset_from, shift, wrapped, COORDINATES};
use crate::practice::word::{PracticeWordModel, State, Word};
use crate::practice::word_models;
use crate::text::{chars_of, push_all, string_of, subrange};

verus! {

/// How a text lies relative to its position.
#[derive(Debug, Clone, Copy, PartialEq, Eq, Structural)]
pub enum TextAlign {
    /// The text starts at the position.
    Left,
    /// The middle of the text is at the position.
    Center,
    /// The text ends at the position.
    Right,
}

impl Default for TextAlign {
    fn default() -> (res: Self)
        ensures
            res == TextAlign::Left,
    {
        TextAlign::Left
    }
}

/// The colours that the engine asks for.
#[derive(Debug, Clone, Copy, PartialEq, Eq, Structural)]
pub enum Color {
    DarkGrey,
    DarkYellow,
    DarkGreen,
    DarkRed,
    Green,
}

/// A request to print a text at an offset from the centre of the screen.
#[derive(Debug)]
pub struct DrawRequest {
    pub text: String,
    pub offset: (i16, i16),
    pub align: Option<TextAlign>,
    pub color: Option<Color>,
    pub background_color: Option<Color>,
    /// Whether the line is cleared before the text is printed.
    pub clear: bool,
}

/// One thing for the screen to do.
#[derive(Debug)]
pub enum DrawOp {
    /// Clear the line at an offset from the centre.
    ClearLine { offset: (i16, i16) },
    /// Clear the screen from a row below the centre downwards.
    ClearDown { row: i16 },
    /// Print a text.
    Print(DrawRequest),
}

/// What a draw operation holds, as plain values.
pub enum DrawOpModel {
    ClearLine { offset: (i16, i16) },
    ClearDown { row: i16 },
    Print {
        text: Seq<char>,
        offset: (i16, i16),
        align: Option<TextAlign>,
        color: Option<Color>,
        background_color: Option<Color>,
        clear: bool,
    },
}

impl View for DrawOp {
    type V = DrawOpModel;

    open spec fn view(&self) -> DrawOpModel {
        match self {
            DrawOp::ClearLine { offset } => DrawOpModel::ClearLine { offset: *offset },
            DrawOp::ClearDown { row } => DrawOpModel::ClearDown { row: *row },
            DrawOp::Print(request) => DrawOpModel::Print {
                text: request.text@,
                offset: request.offset,
                align: request.align,
                color: request.color,
                background_color: request.background_color,
                clear: request.clear,
            },
        }
    }
}

/// The models of a list of draw operations.
pub open spec fn op_models(ops: Seq<DrawOp>) -> Seq<DrawOpModel> {
    Seq::new(ops.len(), |i: int| ops[i]@)
}

/// A request to print `text` at `offset`, without clearing the line.
pub open spec fn print_model(text: Seq<char>, offset: (i16, i16), align: Option<TextAlign>, color: Option<Color>) -> DrawOpModel {
    DrawOpModel::Print { text, offset, align, color, background_color: None, clear: false }
}

fn print_op(text: String, offset: (i16, i16), align: Option<TextAlign>, color: Option<Color>) -> (res: DrawOp)
    ensures
        res@ == print_model(text@, offset, align, color),
{
    DrawOp::Print(DrawRequest { text, offset, align, color, background_color: None, clear: false })
}

/// The column at which a text of `width` characters starts when it is
/// aligned at column `x`. Widths and columns wrap around at the end of
/// the coordinate range.
pub open spec fn aligned_column(x: u16, width: nat, align: TextAlign) -> int {
    match align {
        TextAlign::Left => x as int,
        TextAlign::Center => wrapped(x - (width % 65536) / 2),
        TextAlign::Right => wrapped(x - width % 65536),
    }
}

/// The screen as the engine addresses it.
#[derive(Debug, Clone, Copy)]
pub struct Renderer;

impl Renderer {
    /// Where the text `word` starts when it is printed at `position` with
    /// the alignment `align`.
    pub fn print_at(&self, word: &str, position: (u16, u16), align: TextAlign) -> (res: (u16, u16))
        ensures
            res.0 == aligned_column(position.0, word@.len(), align),
            res.1 == position.1,
    {
        let width: i32 = (chars_of(word).len() % 65536) as i32;
        let back: i32 = match align {
            TextAlign::Left => 0,
            TextAlign::Center => width / 2,
            TextAlign::Right => width,
        };
        let column: i32 = position.0 as i32 - back;
        let within: i32 = if column < 0 {
            column + COORDINATES
        } else {
            column
        };
        (within as u16, position.1)
    }

    /// Where the text `word` starts when it is printed at the distance
    /// `offset` from the centre of the screen, which is at `center`; a
    /// text without alignment is centred.
    pub fn print_at_center(&self, center: (u16, u16), word: &str, offset: (i16, i16), align: Option<TextAlign>) -> (res: (
        u16,
        u16,
    ))
        ensures
            res.0 == aligned_column(
                wrapped(center.0 + offset.0) as u16,
                word@.len(),
                match align {
                    Some(a) => a,
                    None => TextAlign::Center,
                },
            ),
            res.1 == wrapped(center.1 + offset.1),
    {
        let position = offset_from(center, offset);
        let align = match align {
            Some(a) => a,
            None => TextAlign::Center,
        };
        self.print_at(word, position, align)
    }

    /// Where the text `word` starts when it is printed centred at the
    /// centre of the screen, which is at `center`.
    pub fn print_at_center_default(&self, center: (u16, u16), word: &str) -> (res: (u16, u16))
        ensures
            res.0 == aligned_column(center.0, word@.len(), TextAlign::Center),
            res.1 == center.1,
    {
        self.print_at(word, center, TextAlign::Center)
    }

    /// The position of the line to clear at the distance `offset` from the
    /// centre of the screen, which is at `center`.
    pub fn clear_line_at_center(&self, center: (u16, u16), offset: (i16, i16)) -> (res: (u16, u16))
        ensures
            res.0 == wrapped(center.0 + offset.0),
            res.1 == wrapped(center.1 + offset.1),
    {
        offset_from(center, offset)
    }
}

/// The column of the cursor mark relative to the centre: the progress,
/// counted from the middle of the word.
pub fn get_progress_cursor(word: &Word, state: &State) -> (res: i16)
    requires
        state.progress <= i16::MAX,
        word.size / 2 <= i16::MAX,
    ensures
        res == state.progress - word.size / 2,
{
    state.progress as i16 - (word.size / 2) as i16
}

/// The offset from the centre at which the cursor belongs: at the
/// progress, and one further right while a failure is pending.
pub fn reset_cursor(word: &Word, state: &State) -> (res: (i16, i16))
    requires
        state.progress < i16::MAX,
        word.size / 2 <= i16::MAX,
    ensures
        res.0 == state.progress - word.size / 2 + (if state.failed {
            1int
        } else {
            0int
        }),
        res.1 == 0,
{
    let shift: i16 = if state.failed {
        1
    } else {
        0
    };
    (get_progress_cursor(word, state) + shift, 0)
}

/// The request that shows the cursor mark under the word.
pub fn render_cursor(word: &Word, state: &State) -> (res: DrawOp)
    requires
        state.progress <= i16::MAX,
        word.size / 2 <= i16::MAX,
    ensures
        res@ == (DrawOpModel::Print {
            text: "^"@,
            offset: ((state.progress - word.size / 2) as i16, 1i16),
            align: None,
            color: Some(Color::DarkYellow),
            background_color: None,
            clear: true,
        }),
{
    DrawOp::Print(
        DrawRequest {
            text: "^".to_owned(),
            offset: (get_progress_cursor(word, state), 1),
            align: None,
            color: Some(Color::DarkYellow),
            background_color: None,
            clear: true,
        },
    )
}

/// The request that shows a new word on a cleared line at the centre.
pub fn render_new_word(word: &Word) -> (res: DrawOp)
    ensures
        res@ == (DrawOpModel::Print {
            text: word.original@,
            offset: (0i16, 0i16),
            align: None,
            color: None,
            background_color: None,
            clear: true,
        }),
{
    DrawOp::Print(
        DrawRequest {
            text: word.original.clone(),
            offset: (0, 0),
            align: None,
            color: None,
            background_color: None,
            clear: true,
        },
    )
}

/// The text that shows how well a word is known: its count, a space, and
/// the icon for the count.
pub open spec fn knowledge_text(learnt: int) -> Seq<char> {
    decimal(learnt as nat) + seq![' '] + Icon::of(learnt).glyph_text()
}

/// The request that shows how well a word is known, two rows below the
/// centre.
pub fn render_knowledge(learnt: i64) -> (res: DrawOp)
    requires
        learnt >= 0,
    ensures
        res@ == print_model(knowledge_text(learnt as int), (0i16, 2i16), Some(TextAlign::Left), Some(Color::Green)),
{
    let mut text = decimal_digits(learnt as u64);
    text.push(' ');
    let glyph = chars_of(Icon::for_count(learnt).glyph());
    push_all(&mut text, &glyph);
    assert(text@ =~= knowledge_text(learnt as int));
    print_op(string_of(text.as_slice()), (0, 2), Some(TextAlign::Left), Some(Color::Green))
}

/// The requests that show the translations of a word: the screen is
/// cleared from the third row below the centre, and each translation gets
/// a row of its own from there.
pub open spec fn translation_ops(translations: Seq<Seq<char>>) -> Seq<DrawOpModel> {
    seq![DrawOpModel::ClearDown { row: 3 }] + Seq::new(
        translations.len(),
        |i: int| print_model(translations[i], (0i16, (3 + i) as i16), None, None),
    )
}

/// The requests that show the translations of `word`.
pub fn render_translations(word: &Word) -> (res: Vec<DrawOp>)
    requires
        word.translation.len() <= i16::MAX - 3,
    ensures
        op_models(res@) == translation_ops(word@.translation),
{
    let mut ops: Vec<DrawOp> = Vec::new();
    ops.push(DrawOp::ClearDown { row: 3 });
    let mut i: usize = 0;
    while i < word.translation.len()
        invariant
            i <= word.translation.len() <= i16::MAX - 3,
            ops.len() == i + 1,
            forall|k: int| 0 <= k < ops.len() ==> ops@[k]@ == translation_ops(word@.translation)[k],
        decreases word.translation.len() - i,
    {
        let row: i16 = 3 + i as i16;
        ops.push(print_op(word.translation[i].clone(), (0, row), None, None));
        i += 1;
    }
    assert(op_models(ops@) =~= translation_ops(word@.translation));
    ops
}

/// The first translation of a word, or a note that it has none.
pub open spec fn first_translation(word: PracticeWordModel) -> Seq<char> {
    if word.translation.len() > 0 {
        word.translation[0]
    } else {
        "no translation"@
    }
}

/// The requests that show one completed word on the row `row`: the row is
/// cleared, then come the word, an arrow and the first translation.
pub open spec fn completed_word_ops(word: PracticeWordModel, row: i16) -> Seq<DrawOpModel> {
    seq![
        DrawOpModel::ClearLine { offset: (0i16, row) },
        print_model(word.original, (-2i16, row), Some(TextAlign::Right), Some(Color::DarkGrey)),
        print_model("->"@, (0i16, row), None, Some(Color::DarkGrey)),
        print_model(first_translation(word), (2i16, row), Some(TextAlign::Left), Some(Color::DarkGrey)),
    ]
}

/// The requests that show the `shown` most recent of the completed words
/// `words`, the most recent two rows above the centre and each earlier one
/// a row higher.
pub open spec fn completed_ops(words: Seq<PracticeWordModel>, shown: nat) -> Seq<DrawOpModel>
    decreases shown,
{
    if shown == 0 || shown > words.len() {
        Seq::empty()
    } else {
        completed_ops(words, (shown - 1) as nat) + completed_word_ops(
            words[words.len() - shown],
            (-2 - (shown - 1)) as i16,
        )
    }
}

/// The requests that show the completed words, the most recent nearest to
/// the centre.
pub fn render_completed_words(words: &Vec<Word>) -> (res: Vec<DrawOp>)
    requires
        words.len() <= i16::MAX - 2,
    ensures
        op_models(res@) == completed_ops(word_models(words@), words.len() as nat),
{
    let mut ops: Vec<DrawOp> = Vec::new();
    let mut i: usize = 0;
    assert(op_models(ops@) =~= completed_ops(word_models(words@), 0));
    while i < words.len()
        invariant
            i <= words.len() <= i16::MAX - 2,
            op_models(ops@) == completed_ops(word_models(words@), i as nat),
        decreases words.len() - i,
    {
        let word = &words[words.len() - 1 - i];
        let row: i16 = -2 - i as i16;
        let ghost before = op_models(ops@);
        let translation = if word.translation.len() > 0 {
            word.translation[0].clone()
        } else {
            "no translation".to_owned()
        };
        ops.push(DrawOp::ClearLine { offset: (0, row) });
        ops.push(print_op(word.original.clone(), (-2, row), Some(TextAlign::Right), Some(Color::DarkGrey)));
        ops.push(print_op("->".to_owned(), (0, row), None, Some(Color::DarkGrey)));
        ops.push(print_op(translation, (2, row), Some(TextAlign::Left), Some(Color::DarkGrey)));
        proof {
            assert(word_models(words@)[words.len() - 1 - i] == word@);
            assert(op_models(ops@) =~= before + completed_word_ops(word@, row));
        }
        i += 1;
    }
    ops
}

/// The text that shows the progress within a word.
pub open spec fn progress_text(progress: nat, size: nat) -> Seq<char> {
    decimal(progress) + seq!['/'] + decimal(size)
}

/// The requests that show the line of the word under practice: the line
/// is cleared; right of the word stands the progress, left of it the
/// speed; the part already typed is green, the rest plain, and while a
/// failure is pending the character that failed is red; below stands how
/// well the word is known.
pub open spec fn center_ops(
    word: PracticeWordModel,
    state: State,
    learnt: Seq<(Seq<char>, int)>,
    speed: Seq<char>,
) -> Seq<DrawOpModel> {
    let half = (word.size / 2) as i16;
    let left_x = (-half) as i16;
    let right_x = (left_x + state.progress) as i16;
    let known = match count_in(learnt, word.original) {
        Some(c) => c,
        None => 0,
    };
    let head = seq![
        DrawOpModel::ClearLine { offset: (0i16, 0i16) },
        print_model(
            progress_text(state.progress as nat, word.size),
            ((half + 4) as i16, 0i16),
            Some(TextAlign::Left),
            Some(Color::DarkGrey),
        ),
        print_model(speed + " wpm"@, ((-half - 4) as i16, 0i16), Some(TextAlign::Right), Some(Color::DarkYellow)),
        print_model(
            word.original_chars.take(state.progress as int),
            (left_x, 0i16),
            Some(TextAlign::Left),
            Some(Color::DarkGreen),
        ),
        print_model(word.original_chars.skip(state.progress as int), (right_x, 0i16), Some(TextAlign::Left), None),
    ];
    let failure = if state.failed {
        seq![
            print_model(
                seq![
                    if state.progress < word.original_chars.len() {
                        word.original_chars[state.progress as int]
                    } else {
                        ' '
                    },
                ],
                (right_x, 0i16),
                Some(TextAlign::Left),
                Some(Color::DarkRed),
            ),
        ]
    } else {
        Seq::empty()
    };
    head + failure + seq![
        print_model(knowledge_text(known), (0i16, 2i16), Some(TextAlign::Left), Some(Color::Green)),
    ]
}

/// The requests that show the line of the word under practice, with the
/// speed as the text `speed`.
pub fn render_center(word: &Word, state: &State, profile: &Profile, speed: &str) -> (res: Vec<DrawOp>)
    requires
        word.wf(),
        profile.wf(),
        state.progress <= word.size <= i16::MAX,
    ensures
        op_models(res@) == center_ops(word@, *state, profile.pairs(), speed@),
{
    let half: i16 = (word.size / 2) as i16;
    let left_x: i16 = -half;
    let right_x: i16 = left_x + state.progress as i16;
    let mut progress = decimal_digits(state.progress as u64);
    progress.push('/');
    let size = decimal_digits(word.size as u64);
    push_all(&mut progress, &size);
    let mut speed_text = speed.to_owned();
    speed_text.append(" wpm");
    let left = subrange(&word.original_chars, 0, state.progress);
    let right = subrange(&word.original_chars, state.progress, word.original_chars.len());
    proof {
        assert(left@ =~= word@.original_chars.take(state.progress as int));
        assert(right@ =~= word@.original_chars.skip(state.progress as int));
    }
    let mut ops: Vec<DrawOp> = Vec::new();
    ops.push(DrawOp::ClearLine { offset: (0, 0) });
    ops.push(
        print_op(string_of(progress.as_slice()), (half + 4, 0), Some(TextAlign::Left), Some(Color::DarkGrey)),
    );
    ops.push(print_op(speed_text, (-half - 4, 0), Some(TextAlign::Right), Some(Color::DarkYellow)));
    ops.push(print_op(string_of(left.as_slice()), (left_x, 0), Some(TextAlign::Left), Some(Color::DarkGreen)));
    ops.push(print_op(string_of(right.as_slice()), (right_x, 0), Some(TextAlign::Left), None));
    if state.failed {
        let fail_char = if state.progress < word.original_chars.len() {
            word.original_chars[state.progress]
        } else {
            ' '
        };
        let mut shown: Vec<char> = Vec::new();
        shown.push(fail_char);
        assert(shown@ =~= seq![fail_char]);
        ops.push(print_op(string_of(shown.as_slice()), (right_x, 0), Some(TextAlign::Left), Some(Color::DarkRed)));
    }
    let learnt = match profile.count_of(word.original.as_str()) {
        Some(c) => c,
        None => 0,
    };
    proof {
        if count_in(profile.pairs(), word.original@) is Some {
            crate::util::lemma_first_index_of(crate::config::keys_of(profile.pairs()), word.original@);
        }
    }
    ops.push(render_knowledge(learnt));
    proof {
        let want = center_ops(word@, *state, profile.pairs(), speed@);
        assert(progress@ =~= progress_text(state.progress as nat, word@.size));
        assert(op_models(ops@) =~= want);
    }
    ops
}

} // verus!
