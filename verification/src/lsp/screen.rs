use vstd::prelude::*;
use crate::text::{split_lines, split_on, string_of};

verus! {

/// A line of text on a screen, with the position of its top left corner.
pub struct TextLine {
    pub text: String,
    pub x: u32,
    pub y: u128,
}

/// A virtual screen that shows lines of console text.
pub struct VirtualScreen {
    pub width: usize,
    pub height: usize,
    pub text: Vec<TextLine>,
}

/// The texts of a sequence of lines.
pub open spec fn line_texts(lines: Seq<TextLine>) -> Seq<Seq<char>> {
    lines.map_values(|l: TextLine| l.text@)
}

/// Every line sits at the position its index gives it: 8 units from the left,
/// 8 from the top plus 16 per line above it.
pub open spec fn lines_placed(lines: Seq<TextLine>) -> bool {
    forall|i: int| 0 <= i < lines.len() ==> #[trigger] lines[i].x == 8 && lines[i].y == 8 + 16 * i
}

impl VirtualScreen {
    /// An empty screen of the given size.
    pub fn new(width: usize, height: usize) -> (s: Self)
        ensures
            s.width == width,
            s.height == height,
            s.text@.len() == 0,
    {
        VirtualScreen { width, height, text: Vec::new() }
    }

    /// Writes `text` below what is already written, one line per piece
    /// between newline characters.
    pub fn write_text(&mut self, text: &str)
        requires
            lines_placed(old(self).text@),
        ensures
            lines_placed(final(self).text@),
            final(self).width == old(self).width,
            final(self).height == old(self).height,
            line_texts(final(self).text@) == line_texts(old(self).text@) + split_on(text@, '\n'),
    {
        let lines = split_lines(text);
        let ghost start = self.text@;
        let mut i: usize = 0;
        while i < lines.len()
            invariant
                lines_placed(self.text@),
                i <= lines@.len(),
                lines@.len() == split_on(text@, '\n').len(),
                forall|j: int| 0 <= j < lines@.len() ==> #[trigger] lines@[j]@ == split_on(text@, '\n')[j],
                line_texts(self.text@) == line_texts(start) + split_on(text@, '\n').take(i as int),
                self.width == old(self).width,
                self.height == old(self).height,
                start == old(self).text@,
            decreases lines@.len() - i,
        {
            let y: u128 = 8 + 16 * (self.text.len() as u128);
            let line = TextLine { text: string_of(lines[i].as_slice()), x: 8, y };
            let ghost before = self.text@;
            self.text.push(line);
            i = i + 1;
            assert(line_texts(self.text@) =~= line_texts(before).push(split_on(text@, '\n')[i - 1]));
            assert(split_on(text@, '\n').take(i as int) =~= split_on(text@, '\n').take(i - 1).push(split_on(text@, '\n')[i - 1]));
        }
        assert(split_on(text@, '\n').take(i as int) =~= split_on(text@, '\n'));
    }
}

} // verus!
