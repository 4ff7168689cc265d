//! The host console's state: bounded histories of the lines shown, and how the bytes that
//! arrive from the bridge are cut into lines.
use vstd::prelude::*;

verus! {

/// `b` cut at each newline: the complete lines (without their newline) and what follows
/// the last newline.
pub open spec fn split(b: Seq<u8>) -> (Seq<Seq<u8>>, Seq<u8>)
    decreases b.len(),
{
    if b.len() == 0 {
        (Seq::empty(), Seq::empty())
    } else {
        let (ls, cur) = split(b.drop_last());
        if b.last() == '\n' as u8 {
            (ls.push(cur), Seq::empty())
        } else {
            (ls, cur.push(b.last()))
        }
    }
}

/// Whether a line reports a frame received from the bus (it starts with `$rf`).
pub open spec fn frame_line(l: Seq<u8>) -> bool {
    l.len() >= 3 && l[0] == '$' as u8 && l[1] == 'r' as u8 && l[2] == 'f' as u8
}

/// The complete lines of `buf`; bytes after the last newline are dropped.
pub fn split_lines(buf: &[u8]) -> (r: Vec<Vec<u8>>)
    ensures
        r@.map_values(|l: Vec<u8>| l@) == split(buf@).0,
{
    let mut out: Vec<Vec<u8>> = Vec::new();
    let mut cur: Vec<u8> = Vec::new();
    let mut i: usize = 0;
    while i < buf.len()
        invariant
            i <= buf@.len(),
            split(buf@.subrange(0, i as int)) == (out@.map_values(|l: Vec<u8>| l@), cur@),
        decreases buf@.len() - i,
    {
        let b = buf[i];
        let ghost before = out@.map_values(|l: Vec<u8>| l@);
        assert(buf@.subrange(0, i + 1).drop_last() =~= buf@.subrange(0, i as int));
        if b == 10 {
            let line = cur;
            cur = Vec::new();
            out.push(line);
            assert(out@.map_values(|l: Vec<u8>| l@) =~= before.push(line@));
        } else {
            cur.push(b);
        }
        i += 1;
    }
    assert(buf@.subrange(0, buf@.len() as int) =~= buf@);
    out
}

/// Whether a line reports a frame received from the bus.
pub fn is_frame_line(line: &[u8]) -> (r: bool)
    ensures
        r == frame_line(line@),
{
    line.len() >= 3 && line[0] == 36 && line[1] == 114 && line[2] == 102
}

/// The last `CAP` lines shown in a box, oldest first.
pub struct ListWidget<const CAP: usize> {
    content: Vec<String>,
    border_title: &'static str,
}

impl<const CAP: usize> View for ListWidget<CAP> {
    type V = Seq<String>;

    closed spec fn view(&self) -> Seq<String> {
        self.content@
    }
}

impl<const CAP: usize> ListWidget<CAP> {
    pub closed spec fn title(&self) -> &'static str {
        self.border_title
    }

    pub fn new(border_title: &'static str) -> (r: Self)
        ensures
            r@ == Seq::<String>::empty(),
            r.title() == border_title,
    {
        ListWidget { content: Vec::new(), border_title }
    }

    /// Adds a line at the end; when `CAP` lines are shown the oldest goes.
    pub fn add_item(&mut self, item: String)
        ensures
            final(self).title() == old(self).title(),
            old(self)@.len() < CAP || CAP == 0 ==> final(self)@ == old(self)@.push(item),
            old(self)@.len() >= CAP && CAP > 0 ==> final(self)@ == old(self)@.drop_first().push(
                item,
            ),
    {
        if self.content.len() >= CAP && CAP > 0 {
            self.content.remove(0);
        }
        self.content.push(item);
    }

    /// The lines shown, oldest first.
    pub fn content(&self) -> (r: &Vec<String>)
        ensures
            r@ == self@,
    {
        &self.content
    }

    pub fn border_title(&self) -> (r: &'static str)
        ensures
            r == self.title(),
    {
        self.border_title
    }
}

/// The two histories of the console: frames received from the bus, and everything else.
pub struct ListWidgets<const CAP: usize> {
    can_widget: ListWidget<CAP>,
    cmd_widget: ListWidget<CAP>,
}

impl<const CAP: usize> ListWidgets<CAP> {
    pub closed spec fn can_view(&self) -> ListWidget<CAP> {
        self.can_widget
    }

    pub closed spec fn cmd_view(&self) -> ListWidget<CAP> {
        self.cmd_widget
    }

    pub fn new() -> (r: Self)
        ensures
            r.can_view()@ == Seq::<String>::empty(),
            r.cmd_view()@ == Seq::<String>::empty(),
    {
        ListWidgets {
            can_widget: ListWidget::new(" Received CAN Messages "),
            cmd_widget: ListWidget::new(" Commands and Messages "),
        }
    }

    pub fn can(&mut self) -> (r: &mut ListWidget<CAP>)
        ensures
            *r == old(self).can_view(),
            final(self).can_view() == *final(r),
            final(self).cmd_view() == old(self).cmd_view(),
    {
        &mut self.can_widget
    }

    pub fn cmd(&mut self) -> (r: &mut ListWidget<CAP>)
        ensures
            *r == old(self).cmd_view(),
            final(self).cmd_view() == *final(r),
            final(self).can_view() == old(self).can_view(),
    {
        &mut self.cmd_widget
    }
}

/// `x` held within `[0, n]`.
pub open spec fn clamp_to(x: int, n: int) -> int {
    if x < 0 {
        0
    } else if x > n {
        n
    } else {
        x
    }
}

/// The line the user is typing, and the cursor in it (a position between characters).
pub struct InputWidget {
    input: Vec<char>,
    character_index: usize,
}

impl View for InputWidget {
    type V = (Seq<char>, nat);

    closed spec fn view(&self) -> (Seq<char>, nat) {
        (self.input@, self.character_index as nat)
    }
}

impl InputWidget {
    pub fn new() -> (r: Self)
        ensures
            r@ == (Seq::<char>::empty(), 0nat),
    {
        InputWidget { input: Vec::new(), character_index: 0 }
    }

    /// The characters typed so far.
    pub fn text(&self) -> (r: &Vec<char>)
        ensures
            r@ == self@.0,
    {
        &self.input
    }

    /// The cursor position, in characters.
    pub fn cursor(&self) -> (r: usize)
        ensures
            r == self@.1,
    {
        self.character_index
    }

    fn clamp_cursor(&self, new_cursor_pos: usize) -> (r: usize)
        ensures
            r == clamp_to(new_cursor_pos as int, self@.0.len() as int),
    {
        if new_cursor_pos > self.input.len() {
            self.input.len()
        } else {
            new_cursor_pos
        }
    }

    /// Moves the cursor one character left, not past the start.
    pub fn move_cursor_left(&mut self)
        ensures
            final(self)@ == (
                old(self)@.0,
                clamp_to(
                    if old(self)@.1 == 0 {
                        0
                    } else {
                        old(self)@.1 - 1
                    },
                    old(self)@.0.len() as int,
                ) as nat,
            ),
    {
        let moved = if self.character_index == 0 { 0 } else { self.character_index - 1 };
        self.character_index = self.clamp_cursor(moved);
    }

    /// Moves the cursor one character right, not past the end.
    pub fn move_cursor_right(&mut self)
        ensures
            final(self)@ == (
                old(self)@.0,
                clamp_to(
                    if old(self)@.1 == usize::MAX {
                        usize::MAX as int
                    } else {
                        (old(self)@.1 + 1) as int
                    },
                    old(self)@.0.len() as int,
                ) as nat,
            ),
    {
        let moved = if self.character_index == usize::MAX {
            usize::MAX
        } else {
            self.character_index + 1
        };
        self.character_index = self.clamp_cursor(moved);
    }

    /// Inserts a character at the cursor (at the end where the cursor is past it), and
    /// moves the cursor right.
    pub fn enter_char(&mut self, new_char: char)
        ensures
            ({
                let at = clamp_to(old(self)@.1 as int, old(self)@.0.len() as int);
                let text = old(self)@.0.insert(at, new_char);
                final(self)@ == (
                    text,
                    clamp_to(
                        if old(self)@.1 == usize::MAX {
                            usize::MAX as int
                        } else {
                            (old(self)@.1 + 1) as int
                        },
                        text.len() as int,
                    ) as nat,
                )
            }),
    {
        let index = self.clamp_cursor(self.character_index);
        self.input.insert(index, new_char);
        self.move_cursor_right();
    }

    /// Deletes the character left of the cursor, and moves the cursor left.
    pub fn delete_char(&mut self)
        ensures
            old(self)@.1 == 0 ==> final(self)@ == old(self)@,
            old(self)@.1 != 0 ==> ({
                let text = if old(self)@.1 - 1 < old(self)@.0.len() {
                    old(self)@.0.remove(old(self)@.1 - 1)
                } else {
                    old(self)@.0
                };
                final(self)@ == (text, clamp_to(old(self)@.1 - 1, text.len() as int) as nat)
            }),
    {
        if self.character_index != 0 {
            let from_left = self.character_index - 1;
            if from_left < self.input.len() {
                self.input.remove(from_left);
            }
            self.move_cursor_left();
        }
    }

    /// The typed line; the input is emptied and the cursor goes to the start.
    pub fn get_message(&mut self) -> (r: Vec<char>)
        ensures
            r@ == old(self)@.0,
            final(self)@ == (Seq::<char>::empty(), 0nat),
    {
        let mut r: Vec<char> = Vec::new();
        std::mem::swap(&mut r, &mut self.input);
        self.character_index = 0;
        r
    }
}

} // verus!
