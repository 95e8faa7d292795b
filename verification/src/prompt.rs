//! The line that the user of the terminal client is typing: its characters,
//! the cursor in it, and the part of it that shows.

use vstd::prelude::*;
use vstd::slice::slice_subrange;
use crate::screen::{spec_cell_index, spec_put, spec_put_run, Buffer, Cell, Color};

verus! {

/// Whether `c` is white space to `char::is_whitespace`.
pub uninterp spec fn spec_is_whitespace(c: char) -> bool;

/// `char::is_whitespace`: whether `c` has the Unicode property White_Space.
/// The answer depends on `c` alone.
#[verifier::external_body]
fn is_whitespace(c: char) -> (white: bool)
    ensures
        white == spec_is_whitespace(c),
{
    c.is_whitespace()
}

/// Which characters of `buffer` are white space.
pub open spec fn spec_blanks(buffer: Seq<char>) -> Seq<bool> {
    buffer.map_values(|c: char| spec_is_whitespace(c))
}

/// Whether position `at` counts as blank. Past the end of the line stands a
/// line feed, which is blank or not as `past_end` says.
pub open spec fn spec_blank_at(blank: Seq<bool>, past_end: bool, at: int) -> bool {
    if 0 <= at < blank.len() {
        blank[at]
    } else {
        past_end
    }
}

/// Where a walk to the left stops that starts at `from` and goes on while
/// it is not at the start of the line and the position under it is blank
/// (`passing`) or not blank (`!passing`).
pub open spec fn spec_walk_left(blank: Seq<bool>, past_end: bool, from: int, passing: bool) -> int
    decreases from,
{
    if from > 0 && spec_blank_at(blank, past_end, from) == passing {
        spec_walk_left(blank, past_end, from - 1, passing)
    } else {
        from
    }
}

/// Where a walk to the right stops that starts at `from` and goes on while
/// it is inside the line and the position under it is blank (`passing`) or
/// not blank (`!passing`).
pub open spec fn spec_walk_right(blank: Seq<bool>, from: int, passing: bool) -> int
    decreases blank.len() - from,
{
    if 0 <= from < blank.len() && blank[from] == passing {
        spec_walk_right(blank, from + 1, passing)
    } else {
        from
    }
}

/// The cursor after a move one word to the left: over the blanks under and
/// left of it, then over the word left of those.
pub open spec fn spec_word_left(blank: Seq<bool>, past_end: bool, cursor: int) -> int {
    spec_walk_left(blank, past_end, spec_walk_left(blank, past_end, cursor, true), false)
}

/// The cursor after a move one word to the right: over the blanks under and
/// right of it, then over the word right of those.
pub open spec fn spec_word_right(blank: Seq<bool>, cursor: int) -> int {
    spec_walk_right(blank, spec_walk_right(blank, cursor, true), false)
}

/// A walk to the left stops at the first position, going left, that is the
/// start of the line or is not of the kind it passes.
pub proof fn lemma_walk_left_stops(blank: Seq<bool>, past_end: bool, from: int, passing: bool)
    requires
        0 <= from,
    ensures
        0 <= spec_walk_left(blank, past_end, from, passing) <= from,
        spec_walk_left(blank, past_end, from, passing) == 0 || spec_blank_at(
            blank,
            past_end,
            spec_walk_left(blank, past_end, from, passing),
        ) != passing,
        forall|k: int|
            spec_walk_left(blank, past_end, from, passing) < k <= from ==> spec_blank_at(
                blank,
                past_end,
                k,
            ) == passing,
    decreases from,
{
    if from > 0 && spec_blank_at(blank, past_end, from) == passing {
        lemma_walk_left_stops(blank, past_end, from - 1, passing);
    }
}

/// A walk to the right stops at the first position, going right, that is
/// the end of the line or is not of the kind it passes.
pub proof fn lemma_walk_right_stops(blank: Seq<bool>, from: int, passing: bool)
    requires
        0 <= from <= blank.len(),
    ensures
        from <= spec_walk_right(blank, from, passing) <= blank.len(),
        spec_walk_right(blank, from, passing) == blank.len() || blank[spec_walk_right(
            blank,
            from,
            passing,
        )] != passing,
        forall|k: int|
            from <= k < spec_walk_right(blank, from, passing) ==> blank[k] == passing,
    decreases blank.len() - from,
{
    if from < blank.len() && blank[from] == passing {
        lemma_walk_right_stops(blank, from + 1, passing);
    }
}

/// A walk to the right never ends left of its start.
pub proof fn lemma_walk_right_advances(blank: Seq<bool>, from: int, passing: bool)
    ensures
        from <= spec_walk_right(blank, from, passing),
    decreases blank.len() - from,
{
    if 0 <= from < blank.len() && blank[from] == passing {
        lemma_walk_right_advances(blank, from + 1, passing);
    }
}

fn blank_at(blank: &[bool], past_end: bool, at: usize) -> (is_blank: bool)
    ensures
        is_blank == spec_blank_at(blank@, past_end, at as int),
{
    if at < blank.len() {
        blank[at]
    } else {
        past_end
    }
}

fn walk_left(blank: &[bool], past_end: bool, from: usize, passing: bool) -> (to: usize)
    ensures
        to == spec_walk_left(blank@, past_end, from as int, passing),
{
    let mut at: usize = from;
    while at > 0 && blank_at(blank, past_end, at) == passing
        invariant
            at <= from,
            spec_walk_left(blank@, past_end, at as int, passing) == spec_walk_left(
                blank@,
                past_end,
                from as int,
                passing,
            ),
        decreases at,
    {
        at -= 1;
    }
    at
}

fn walk_right(blank: &[bool], from: usize, passing: bool) -> (to: usize)
    ensures
        to == spec_walk_right(blank@, from as int, passing),
{
    let mut at: usize = from;
    while at < blank.len() && blank[at] == passing
        invariant
            from <= at,
            spec_walk_right(blank@, at as int, passing) == spec_walk_right(
                blank@,
                from as int,
                passing,
            ),
        decreases blank.len() - at,
    {
        at += 1;
    }
    at
}

/// Where the cursor goes from `cursor` by a move one word to the left, in a
/// line whose characters are blank as `blank` says.
pub fn word_left(blank: &[bool], past_end: bool, cursor: usize) -> (to: usize)
    ensures
        to == spec_word_left(blank@, past_end, cursor as int),
        to <= cursor,
{
    proof {
        lemma_walk_left_stops(blank@, past_end, cursor as int, true);
        lemma_walk_left_stops(
            blank@,
            past_end,
            spec_walk_left(blank@, past_end, cursor as int, true),
            false,
        );
    }
    let over_blanks = walk_left(blank, past_end, cursor, true);
    walk_left(blank, past_end, over_blanks, false)
}

/// Where the cursor goes from `cursor` by a move one word to the right, in
/// a line whose characters are blank as `blank` says.
pub fn word_right(blank: &[bool], cursor: usize) -> (to: usize)
    ensures
        to == spec_word_right(blank@, cursor as int),
        to >= cursor,
        cursor <= blank@.len() ==> to <= blank@.len(),
{
    proof {
        if cursor <= blank@.len() {
            lemma_walk_right_stops(blank@, cursor as int, true);
            lemma_walk_right_stops(blank@, spec_walk_right(blank@, cursor as int, true), false);
        }
        lemma_walk_right_advances(blank@, cursor as int, true);
        lemma_walk_right_advances(
            blank@,
            spec_walk_right(blank@, cursor as int, true),
            false,
        );
    }
    let over_blanks = walk_right(blank, cursor, true);
    walk_right(blank, over_blanks, false)
}

pub struct Prompt {
    /// The characters of the line.
    pub buffer: Vec<char>,
    /// The position in the line at which typing inserts.
    pub cursor: usize,
    /// The position in the line that shows first.
    pub scroll: usize,
}

/// The character under position `at`: a line feed past the end of the line.
pub open spec fn spec_at(buffer: Seq<char>, at: int) -> char {
    if 0 <= at < buffer.len() {
        buffer[at]
    } else {
        '\n'
    }
}

/// The first position that shows, so that a window of `w` characters holds
/// the cursor.
pub open spec fn spec_sync_scroll(cursor: int, scroll: int, w: int) -> int {
    let back = if cursor < scroll {
        cursor
    } else {
        scroll
    };
    if back + w <= cursor {
        cursor - w
    } else {
        back
    }
}

/// `cursor`, or the end of the line where it stands past it.
pub open spec fn spec_clamp(buffer: Seq<char>, cursor: int) -> int {
    if cursor <= buffer.len() {
        cursor
    } else {
        buffer.len() as int
    }
}

/// The line with `text` put in at the cursor.
pub open spec fn spec_insert_all(buffer: Seq<char>, cursor: int, text: Seq<char>) -> Seq<char> {
    let at = spec_clamp(buffer, cursor);
    buffer.subrange(0, at) + text + buffer.subrange(at, buffer.len() as int)
}

/// The cells with the prompt drawn into row `y`: from column `x` on the
/// `w` characters of `line` that show from `scroll` on, in white on black, a
/// `<` left of them where the line begins before them and a `>` right of
/// them where it goes on behind them. A line that ends before `scroll` is
/// not drawn.
pub open spec fn spec_render_prompt(
    cells: Seq<Cell>,
    width: int,
    line: Seq<char>,
    scroll: int,
    x: int,
    y: int,
    w: int,
) -> Seq<Cell> {
    if scroll > line.len() {
        cells
    } else {
        let end = if scroll + w < line.len() {
            scroll + w
        } else {
            line.len() as int
        };
        let text = spec_put_run(
            cells,
            spec_cell_index(width, x, y),
            line.subrange(scroll, end),
            Color::White,
            Color::Black,
        );
        let left = if scroll > 0 {
            spec_put(
                text,
                spec_cell_index(width, x - 1, y),
                Cell { ch: '<', fg: Color::White, bg: Color::Black },
            )
        } else {
            text
        };
        if scroll + w < line.len() {
            spec_put(
                left,
                spec_cell_index(width, x + w, y),
                Cell { ch: '>', fg: Color::White, bg: Color::Black },
            )
        } else {
            left
        }
    }
}

impl Default for Prompt {
    fn default() -> (p: Prompt)
        ensures
            p.buffer@ == Seq::<char>::empty(),
            p.cursor == 0,
            p.scroll == 0,
    {
        Prompt { buffer: Vec::new(), cursor: 0, scroll: 0 }
    }
}

impl Prompt {
    /// The cursor stands inside the line or at its end.
    pub open spec fn wf(&self) -> bool {
        self.cursor <= self.buffer@.len()
    }

    /// Moves the window so that it holds the cursor.
    pub fn sync_scroll_with_cursor(&mut self, w: usize)
        ensures
            final(self).scroll == spec_sync_scroll(
                old(self).cursor as int,
                old(self).scroll as int,
                w as int,
            ),
            final(self).scroll <= final(self).cursor,
            final(self).cursor - final(self).scroll <= w,
            final(self).cursor == old(self).cursor,
            final(self).buffer == old(self).buffer,
    {
        if self.cursor < self.scroll {
            self.scroll = self.cursor;
        }
        if w <= self.cursor - self.scroll {
            self.scroll = self.cursor - w;
        }
    }

    /// Where the cursor of the terminal belongs, as column and row, for a
    /// prompt that is drawn into the `w` columns from column `x` of row `y`
    /// on. The window is moved to hold the cursor first. A prompt of less
    /// than two columns has no room for a cursor.
    pub fn sync_terminal_cursor(&mut self, x: usize, y: usize, w: usize) -> (at: Option<
        (usize, usize),
    >)
        requires
            x + w <= usize::MAX,
        ensures
            w < 2 ==> at is None && *final(self) == *old(self),
            w >= 2 ==> final(self).scroll == spec_sync_scroll(
                old(self).cursor as int,
                old(self).scroll as int,
                w - 2,
            ) && at == Some(((x + 1 + old(self).cursor - final(self).scroll) as usize, y)),
            final(self).cursor == old(self).cursor,
            final(self).buffer == old(self).buffer,
    {
        if w >= 2 {
            self.sync_scroll_with_cursor(w - 2);
            let offset = self.cursor - self.scroll;
            Some((x + 1 + offset, y))
        } else {
            None
        }
    }

    /// Draws the prompt into the `w` columns from column `x` of row `y` on:
    /// a column for the mark `<`, the part of the line that shows, a column
    /// for the mark `>`. The window is moved to hold the cursor first. A
    /// prompt of less than two columns is not drawn.
    pub fn render(&mut self, buffer: &mut Buffer, x: usize, y: usize, w: usize)
        requires
            x + w <= usize::MAX,
        ensures
            w < 2 ==> *final(self) == *old(self) && final(buffer).cells@ == old(buffer).cells@,
            w >= 2 ==> final(self).scroll == spec_sync_scroll(
                old(self).cursor as int,
                old(self).scroll as int,
                w - 2,
            ) && final(buffer).cells@ == spec_render_prompt(
                old(buffer).cells@,
                old(buffer).width as int,
                old(self).buffer@,
                final(self).scroll as int,
                x + 1,
                y as int,
                w - 2,
            ),
            final(self).cursor == old(self).cursor,
            final(self).buffer == old(self).buffer,
            final(buffer).width == old(buffer).width,
            final(buffer).height == old(buffer).height,
    {
        if w >= 2 {
            let w = w - 2;
            let x = x + 1;
            self.sync_scroll_with_cursor(w);
            let begin = self.scroll;
            let len = self.buffer.len();
            if begin <= len {
                let more = w < len - begin;
                let end = if more {
                    begin + w
                } else {
                    len
                };
                let window = slice_subrange(self.buffer.as_slice(), begin, end);
                buffer.put_cells(x, y, window, Color::White, Color::Black);
                if begin > 0 {
                    buffer.put_cell(x - 1, y, '<', Color::White, Color::Black);
                }
                if more {
                    buffer.put_cell(x + w, y, '>', Color::White, Color::Black);
                }
            }
        }
    }

    /// Puts `x` in at the cursor, or at the end of the line where the cursor
    /// stands past it, and the cursor behind `x`.
    pub fn insert(&mut self, x: char)
        ensures
            final(self).buffer@ == old(self).buffer@.insert(
                spec_clamp(old(self).buffer@, old(self).cursor as int),
                x,
            ),
            final(self).cursor == spec_clamp(old(self).buffer@, old(self).cursor as int) + 1,
            final(self).scroll == old(self).scroll,
            final(self).wf(),
    {
        if self.cursor > self.buffer.len() {
            self.cursor = self.buffer.len();
        }
        self.buffer.insert(self.cursor, x);
        let longer = self.buffer.len();
        assert(self.cursor < longer);
        self.cursor += 1;
    }

    /// Puts the characters of `text` in at the cursor, as `insert` does one
    /// by one. An empty text changes nothing.
    pub fn insert_str(&mut self, text: &str)
        ensures
            text@.len() == 0 ==> *final(self) == *old(self),
            text@.len() > 0 ==> final(self).buffer@ == spec_insert_all(
                old(self).buffer@,
                old(self).cursor as int,
                text@,
            ) && final(self).cursor == spec_clamp(old(self).buffer@, old(self).cursor as int)
                + text@.len(),
            final(self).scroll == old(self).scroll,
    {
        broadcast use vstd::string::group_string_axioms;

        let ghost at = spec_clamp(self.buffer@, self.cursor as int);
        for x in it: text.chars()
            invariant
                it.seq() == text@,
                at == spec_clamp(old(self).buffer@, old(self).cursor as int),
                self.scroll == old(self).scroll,
                it.index() == 0 ==> *self == *old(self),
                it.index() > 0 ==> self.cursor == at + it.index() && self.buffer@
                    == spec_insert_all(
                    old(self).buffer@,
                    old(self).cursor as int,
                    text@.take(it.index()),
                ),
        {
            let ghost done = it.index();
            self.insert(x);
            proof {
                assert(x == text@[done]);
                assert(text@.take(0) =~= Seq::<char>::empty());
                assert(self.buffer@ =~= spec_insert_all(
                    old(self).buffer@,
                    old(self).cursor as int,
                    text@.take(done + 1),
                ));
            }
        }
        proof {
            assert(text@.take(text@.len() as int) =~= text@);
        }
    }

    /// One position to the left, unless at the start.
    pub fn left_char(&mut self)
        ensures
            final(self).cursor == if old(self).cursor > 0 {
                old(self).cursor - 1
            } else {
                0
            },
            final(self).buffer == old(self).buffer,
            final(self).scroll == old(self).scroll,
    {
        if self.cursor > 0 {
            self.cursor -= 1;
        }
    }

    /// One position to the right, unless at the end or past it.
    pub fn right_char(&mut self)
        ensures
            final(self).cursor == if old(self).cursor < old(self).buffer@.len() {
                old(self).cursor + 1
            } else {
                old(self).cursor as int
            },
            final(self).buffer == old(self).buffer,
            final(self).scroll == old(self).scroll,
    {
        if self.cursor < self.buffer.len() {
            self.cursor += 1;
        }
    }

    /// The character under the cursor: a line feed at the end of the line
    /// and past it.
    pub fn at_cursor(&self) -> (c: char)
        ensures
            c == spec_at(self.buffer@, self.cursor as int),
    {
        if self.cursor < self.buffer.len() {
            self.buffer[self.cursor]
        } else {
            '\n'
        }
    }

    /// Which characters of the line are white space.
    fn blanks(&self) -> (blank: Vec<bool>)
        ensures
            blank@ == spec_blanks(self.buffer@),
    {
        let mut blank: Vec<bool> = Vec::new();
        let mut i: usize = 0;
        while i < self.buffer.len()
            invariant
                i <= self.buffer@.len(),
                blank@ == spec_blanks(self.buffer@.take(i as int)),
            decreases self.buffer@.len() - i,
        {
            blank.push(is_whitespace(self.buffer[i]));
            assert(blank@ =~= spec_blanks(self.buffer@.take(i + 1)));
            i += 1;
        }
        assert(self.buffer@.take(self.buffer@.len() as int) =~= self.buffer@);
        blank
    }

    /// To the start of the word left of the cursor: over the white space
    /// under and left of the cursor, then over what is not white space.
    pub fn left_word(&mut self)
        ensures
            final(self).cursor == spec_word_left(
                spec_blanks(old(self).buffer@),
                spec_is_whitespace('\n'),
                old(self).cursor as int,
            ),
            final(self).cursor <= old(self).cursor,
            final(self).buffer == old(self).buffer,
            final(self).scroll == old(self).scroll,
    {
        let blank = self.blanks();
        self.cursor = word_left(blank.as_slice(), is_whitespace('\n'), self.cursor);
    }

    /// To the end of the word right of the cursor: over the white space
    /// under and right of the cursor, then over what is not white space.
    pub fn right_word(&mut self)
        ensures
            final(self).cursor == spec_word_right(
                spec_blanks(old(self).buffer@),
                old(self).cursor as int,
            ),
            final(self).cursor >= old(self).cursor,
            final(self).buffer == old(self).buffer,
            final(self).scroll == old(self).scroll,
    {
        let blank = self.blanks();
        self.cursor = word_right(blank.as_slice(), self.cursor);
    }

    /// Takes out the character left of the cursor, unless at the start.
    pub fn backspace(&mut self)
        requires
            old(self).wf(),
        ensures
            final(self).wf(),
            old(self).cursor == 0 ==> *final(self) == *old(self),
            old(self).cursor > 0 ==> final(self).cursor == old(self).cursor - 1
                && final(self).buffer@ == old(self).buffer@.remove(old(self).cursor - 1),
            final(self).scroll == old(self).scroll,
    {
        if self.cursor > 0 {
            self.cursor -= 1;
            self.buffer.remove(self.cursor);
        }
    }

    /// The part of the line left of the cursor.
    pub fn before_cursor(&self) -> (part: &[char])
        requires
            self.wf(),
        ensures
            part@ == self.buffer@.subrange(0, self.cursor as int),
    {
        slice_subrange(self.buffer.as_slice(), 0, self.cursor)
    }

    /// The part of the line from the cursor on.
    pub fn after_cursor(&self) -> (part: &[char])
        requires
            self.wf(),
        ensures
            part@ == self.buffer@.subrange(self.cursor as int, self.buffer@.len() as int),
    {
        slice_subrange(self.buffer.as_slice(), self.cursor, self.buffer.len())
    }

    /// Empties the line.
    pub fn clear(&mut self)
        ensures
            final(self).buffer@ == Seq::<char>::empty(),
            final(self).cursor == 0,
            final(self).scroll == old(self).scroll,
    {
        self.buffer.clear();
        self.cursor = 0;
    }

    /// Takes out what stands from the cursor on.
    pub fn delete_until_end(&mut self)
        ensures
            final(self).buffer@ == if old(self).cursor < old(self).buffer@.len() {
                old(self).buffer@.take(old(self).cursor as int)
            } else {
                old(self).buffer@
            },
            final(self).cursor == old(self).cursor,
            final(self).scroll == old(self).scroll,
    {
        assert(self.buffer@.take(self.buffer@.len() as int) =~= self.buffer@);
        while self.cursor < self.buffer.len()
            invariant
                self.cursor == old(self).cursor,
                self.scroll == old(self).scroll,
                self.buffer@.len() <= old(self).buffer@.len(),
                self.buffer@ == old(self).buffer@.take(self.buffer@.len() as int),
                old(self).cursor < old(self).buffer@.len() ==> self.cursor <= self.buffer@.len(),
                old(self).cursor >= old(self).buffer@.len() ==> self.buffer@.len() == old(
                    self,
                ).buffer@.len(),
            decreases self.buffer@.len(),
        {
            self.buffer.pop();
            assert(self.buffer@ =~= old(self).buffer@.take(self.buffer@.len() as int));
        }
    }
}

} // verus!
