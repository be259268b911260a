use vstd::prelude::*;

verus! {

broadcast use vstd::string::group_string_axioms;

/// A cell color as the terminal reports it.
#[derive(Clone, Copy, PartialEq, Eq, Structural, Debug, Hash)]
pub enum Color {
    Default,
    Idx(u8),
    Rgb(u8, u8, u8),
}

impl Color {
    pub fn is_default(self) -> (b: bool)
        ensures
            b == (self is Default),
    {
        match self {
            Color::Default => true,
            _ => false,
        }
    }
}

/// How a run of text is drawn.
#[derive(Clone, Copy, PartialEq, Eq, Structural, Debug, Hash)]
pub struct Style {
    pub fg: Color,
    pub bg: Color,
    pub bold: bool,
    pub italic: bool,
    pub underline: bool,
}

impl Style {
    /// The plain style: default colors, no attributes.
    pub fn plain() -> (s: Style)
        ensures
            s == (Style {
                fg: Color::Default,
                bg: Color::Default,
                bold: false,
                italic: false,
                underline: false,
            }),
    {
        Style { fg: Color::Default, bg: Color::Default, bold: false, italic: false, underline: false }
    }

    /// Whether a run in this style shows nothing where its text is blank.
    pub fn is_blank(&self) -> (b: bool)
        ensures
            b == (self.bg is Default && !self.underline),
    {
        self.bg.is_default() && !self.underline
    }
}

/// Consecutive cells of one row in one style, starting at column `col` and
/// `width` cells wide.
#[derive(Clone, PartialEq, Eq, Debug)]
pub struct Run {
    pub col: u16,
    pub width: u16,
    pub text: String,
    pub style: Style,
}

pub struct RunView {
    pub col: u16,
    pub width: u16,
    pub text: Seq<char>,
    pub style: Style,
}

impl View for Run {
    type V = RunView;

    open spec fn view(&self) -> RunView {
        RunView { col: self.col, width: self.width, text: self.text@, style: self.style }
    }
}

/// One row of a frame: its runs, left to right.
#[derive(Clone, PartialEq, Eq, Debug)]
pub struct Row {
    pub runs: Vec<Run>,
}

impl View for Row {
    type V = Seq<RunView>;

    open spec fn view(&self) -> Seq<RunView> {
        self.runs@.map_values(|r: Run| r@)
    }
}

/// One picture of the terminal: its rows, and the cursor's row and column
/// where it is shown.
#[derive(Clone, PartialEq, Eq, Debug)]
pub struct Frame {
    pub rows: Vec<Row>,
    pub cursor: Option<(u16, u16)>,
}

pub struct FrameView {
    pub rows: Seq<Seq<RunView>>,
    pub cursor: Option<(u16, u16)>,
}

impl View for Frame {
    type V = FrameView;

    open spec fn view(&self) -> FrameView {
        FrameView { rows: self.rows@.map_values(|r: Row| r@), cursor: self.cursor }
    }
}

impl Run {
    /// A copy of this run.
    pub fn copy(&self) -> (r: Run)
        ensures
            r@ == self@,
    {
        Run { col: self.col, width: self.width, text: self.text.clone(), style: self.style }
    }

    /// Whether two runs are the same.
    pub fn same(&self, other: &Run) -> (b: bool)
        ensures
            b == (self@ == other@),
    {
        self.col == other.col && self.width == other.width && self.text == other.text
            && self.style == other.style
    }
}

impl Row {
    /// A copy of this row.
    pub fn copy(&self) -> (r: Row)
        ensures
            r@ == self@,
    {
        let mut runs: Vec<Run> = Vec::new();
        let mut i: usize = 0;
        while i < self.runs.len()
            invariant
                i <= self.runs.len(),
                runs@.map_values(|r: Run| r@) == self@.take(i as int),
            decreases self.runs.len() - i,
        {
            let r = self.runs[i].copy();
            runs.push(r);
            assert(runs@.map_values(|r: Run| r@) == runs@.drop_last().map_values(|r: Run| r@).push(r@));
            assert(self@.take(i + 1) == self@.take(i as int).push(self.runs@[i as int]@));
            i = i + 1;
        }
        assert(self@.take(self.runs.len() as int) =~= self@);
        Row { runs }
    }

    /// Whether two rows are the same.
    pub fn same(&self, other: &Row) -> (b: bool)
        ensures
            b == (self@ == other@),
    {
        if self.runs.len() != other.runs.len() {
            assert(self@.len() != other@.len());
            return false;
        }
        let mut i: usize = 0;
        while i < self.runs.len()
            invariant
                i <= self.runs.len(),
                self.runs.len() == other.runs.len(),
                forall|j: int| 0 <= j < i ==> self@[j] == other@[j],
            decreases self.runs.len() - i,
        {
            if !self.runs[i].same(&other.runs[i]) {
                assert(self@[i as int] != other@[i as int]);
                return false;
            }
            i = i + 1;
        }
        assert(self@ =~= other@);
        true
    }

    pub fn empty() -> (r: Row)
        ensures
            r@.len() == 0,
    {
        Row { runs: Vec::new() }
    }
}

impl Frame {
    /// A copy of this frame.
    pub fn copy(&self) -> (f: Frame)
        ensures
            f@ == self@,
    {
        let mut rows: Vec<Row> = Vec::new();
        let mut i: usize = 0;
        while i < self.rows.len()
            invariant
                i <= self.rows.len(),
                rows@.map_values(|r: Row| r@) == self@.rows.take(i as int),
            decreases self.rows.len() - i,
        {
            let r = self.rows[i].copy();
            rows.push(r);
            assert(rows@.map_values(|r: Row| r@) == rows@.drop_last().map_values(|r: Row| r@).push(r@));
            assert(self@.rows.take(i + 1) == self@.rows.take(i as int).push(self.rows@[i as int]@));
            i = i + 1;
        }
        assert(self@.rows.take(self.rows.len() as int) =~= self@.rows);
        Frame { rows, cursor: self.cursor }
    }

    /// Whether two frames are the same.
    pub fn same(&self, other: &Frame) -> (b: bool)
        ensures
            b == (self@ == other@),
    {
        if self.rows.len() != other.rows.len() {
            assert(self@.rows.len() != other@.rows.len());
            return false;
        }
        if self.cursor != other.cursor {
            return false;
        }
        let mut i: usize = 0;
        while i < self.rows.len()
            invariant
                i <= self.rows.len(),
                self.rows.len() == other.rows.len(),
                forall|j: int| 0 <= j < i ==> self@.rows[j] == other@.rows[j],
            decreases self.rows.len() - i,
        {
            if !self.rows[i].same(&other.rows[i]) {
                assert(self@.rows[i as int] != other@.rows[i as int]);
                return false;
            }
            i = i + 1;
        }
        assert(self@.rows =~= other@.rows);
        true
    }

    /// A frame of `rows` empty rows and no cursor.
    pub fn blank(rows: u16) -> (f: Frame)
        ensures
            f@.rows.len() == rows,
            forall|i: int| 0 <= i < rows ==> f@.rows[i].len() == 0,
            f@.cursor is None,
    {
        let mut v: Vec<Row> = Vec::new();
        let mut i: u16 = 0;
        while i < rows
            invariant
                i <= rows,
                v@.len() == i,
                forall|j: int| 0 <= j < i ==> v@[j]@.len() == 0,
            decreases rows - i,
        {
            v.push(Row::empty());
            i = i + 1;
        }
        Frame { rows: v, cursor: None }
    }
}

} // verus!
