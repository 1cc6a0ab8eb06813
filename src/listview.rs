//! The list view: selection, viewport, ordering controls and the render cache.
use vstd::prelude::*;
use crate::files::{
    File, Files, SortBy, Value, locate, lower_of, lowercase, opt_view, parent_of, pick, scaled,
    text_contains, unit_label,
};
use crate::render::{byte_len, pad, padded, sat_sub, sized_string, sized_text, spaces};
use crate::term::{
    cjk_width, cursor_goto, cursor_restore, cursor_right, cursor_save, decimal, decimal_string,
    goto_seq, restore_seq, right_seq, save_seq, utf8_len, width_cjk,
};

verus! {

/// Terminal color and attribute directives the view writes around its text.
pub struct Palette {
    pub normal: String,
    pub red: String,
    pub yellow: String,
    pub highlight: String,
    pub reset: String,
    pub invert: String,
}

/// Where the view stands on screen, whether its cache is stale, and the last
/// status message it shows.
pub struct WidgetCore {
    pub xpos: u16,
    pub ypos: u16,
    pub xsize: u16,
    pub ysize: u16,
    pub dirty: bool,
    pub status: String,
    pub palette: Palette,
}

/// A decoded key.
#[derive(Clone, Copy, PartialEq, Eq, Structural, Debug)]
pub enum Key {
    Up,
    Down,
    Left,
    Right,
    Char(char),
    Ctrl(char),
    Other,
}

/// What a key asked of the caller.
#[derive(Debug)]
pub enum KeyOutcome {
    /// The key was handled here.
    Handled,
    /// Open this path and hand the listing to `goto_path`.
    Open(String),
    /// Ask for a text to find, then call `find_file`.
    PromptFind,
    /// Ask for a filter, then call `filter`.
    PromptFilter,
    /// The key has no binding here.
    Unhandled,
}

/// The first offset that keeps `pos` more than two rows above the bottom of
/// a window of `ysize` rows.
pub open spec fn lookahead_offset(pos: nat, ysize: nat) -> nat {
    if pos + 3 > ysize {
        (pos + 3 - ysize) as nat
    } else {
        0
    }
}

/// Where a remembered entry lands: its first position, else the top.
pub open spec fn relocated(fs: Seq<File>, v: Value) -> nat {
    match locate(fs, v) {
        Some(k) => k,
        None => 0,
    }
}

pub struct ListView {
    pub content: Files,
    /// Number of entries shown, as of the last refresh.
    pub lines: usize,
    pub selection: usize,
    pub offset: usize,
    /// The rendered line of each entry shown.
    pub buffer: Vec<String>,
    pub core: WidgetCore,
    /// The last move was a step by modification time.
    pub seeking: bool,
}

impl ListView {
    pub open spec fn ysize(self) -> nat {
        self.core.ysize as nat
    }

    /// The selection is within the entries shown, or zero where none is.
    pub open spec fn wf(self) -> bool {
        &&& self.content.wf()
        &&& self.lines == self.content.spec_len()
        &&& self.lines > 0 ==> self.selection < self.lines
        &&& self.lines == 0 ==> self.selection == 0
    }

    /// The selection lies in the window of rows shown.
    pub open spec fn in_window(self) -> bool {
        self.offset <= self.selection < self.offset + self.ysize()
    }

    /// The entry under the selection.
    pub open spec fn spec_selected(self) -> File {
        self.content.shown_files()[self.selection as int]
    }

    /// Only the selection, offset and seeking flag may differ from `o`.
    pub open spec fn same_but_position(self, o: ListView) -> bool {
        &&& self.content == o.content
        &&& self.lines == o.lines
        &&& self.buffer == o.buffer
        &&& self.core == o.core
    }

    /// A view of `content` at its top, not seeking, with no lines counted or
    /// rendered yet: the first `refresh` counts and renders them.
    pub fn new(core: WidgetCore, content: Files) -> (r: ListView)
        ensures
            r.content == content,
            r.core == core,
            r.lines == 0,
            r.selection == 0,
            r.offset == 0,
            r.buffer@.len() == 0,
            !r.seeking,
    {
        ListView { content, lines: 0, selection: 0, offset: 0, buffer: Vec::new(), core, seeking: false }
    }

    /// One up; the window follows where the selection would leave it.
    pub fn move_up(&mut self)
        requires
            old(self).wf(),
        ensures
            final(self).wf(),
            final(self).same_but_position(*old(self)),
            old(self).selection == 0 ==> *final(self) == *old(self),
            old(self).selection > 0 ==> {
                &&& final(self).selection == old(self).selection - 1
                &&& final(self).offset == if old(self).selection <= old(self).offset {
                    old(self).offset - 1
                } else {
                    old(self).offset as int
                }
                &&& !final(self).seeking
            },
            old(self).in_window() ==> final(self).in_window(),
    {
        if self.selection == 0 {
            return;
        }
        if self.selection <= self.offset {
            self.offset = self.offset - 1;
        }
        self.selection = self.selection - 1;
        self.seeking = false;
    }

    /// One down, unless at the last entry; the window scrolls by one where the
    /// selection would leave it at the bottom.
    pub fn move_down(&mut self)
        requires
            old(self).wf(),
        ensures
            final(self).wf(),
            final(self).same_but_position(*old(self)),
            old(self).lines == 0 || old(self).selection + 1 == old(self).lines ==> *final(self)
                == *old(self),
            old(self).lines > 0 && old(self).selection + 1 != old(self).lines ==> {
                &&& final(self).selection == old(self).selection + 1
                &&& final(self).offset == if old(self).selection + 1 >= old(self).ysize()
                    + old(self).offset {
                    old(self).offset + 1
                } else {
                    old(self).offset as int
                }
                &&& !final(self).seeking
            },
            old(self).in_window() ==> final(self).in_window(),
    {
        let y_size = self.core.ysize as usize;
        if self.lines == 0 || self.selection == self.lines - 1 {
            return;
        }
        if self.selection + 1 >= y_size && self.selection + 1 - y_size >= self.offset {
            self.offset = self.offset + 1;
        }
        self.selection = self.selection + 1;
        self.seeking = false;
    }

    pub fn get_selection(&self) -> (r: usize)
        ensures
            r == self.selection,
    {
        self.selection
    }

    /// Selects `position` and scrolls to the first offset that keeps it more
    /// than two rows above the bottom of the window.
    pub fn set_selection(&mut self, position: usize)
        requires
            old(self).wf(),
            position < old(self).lines || position == 0,
        ensures
            final(self).wf(),
            final(self).same_but_position(*old(self)),
            final(self).seeking == old(self).seeking,
            final(self).selection == position,
            final(self).offset == lookahead_offset(position as nat, old(self).ysize()),
            position + 2 < old(self).ysize() + final(self).offset,
            final(self).offset > 0 ==> position + 2 >= old(self).ysize() + final(self).offset - 1,
            old(self).ysize() >= 3 ==> final(self).in_window(),
    {
        let ysize = self.core.ysize as usize;
        proof {
            crate::files::lemma_len_bound(self.content);
        }
        let offset: usize = if position + 3 > ysize {
            position + 3 - ysize
        } else {
            0
        };
        self.offset = offset;
        self.selection = position;
    }

    /// The entry under the selection.
    pub fn selected_file(&self) -> (r: &File)
        requires
            self.wf(),
            self.lines > 0,
        ensures
            *r == self.spec_selected(),
    {
        self.content.get(self.selection)
    }

    /// A copy of the entry under the selection.
    pub fn clone_selected_file(&self) -> (r: File)
        requires
            self.wf(),
            self.lines > 0,
        ensures
            r.same_as(self.spec_selected()),
    {
        self.content.get(self.selection).duplicate()
    }

    /// Selects the first entry that holds the values of `file`, or the top
    /// where there is none.
    pub fn select_file(&mut self, file: &File)
        requires
            old(self).wf(),
        ensures
            final(self).wf(),
            final(self).same_but_position(*old(self)),
            final(self).seeking == old(self).seeking,
            final(self).selection == relocated(old(self).content.shown_files(), file.value()),
            (exists|k: int|
                0 <= k < old(self).content.shown_files().len()
                    && #[trigger] old(self).content.shown_files()[k].value() == file.value())
                ==> final(self).lines > 0 && final(self).spec_selected().value() == file.value(),
            final(self).offset == lookahead_offset(final(self).selection as nat, old(self).ysize()),
            old(self).ysize() >= 3 ==> final(self).in_window(),
    {
        proof {
            crate::files::lemma_locate(self.content.shown_files(), file.value());
        }
        let pos = match self.content.position(file) {
            Some(p) => p,
            None => 0,
        };
        self.set_selection(pos);
    }
}


/// Size figure and unit shown for an entry.
pub open spec fn size_figure(f: File) -> (nat, Seq<char>) {
    match f.size {
        Some(b) => (scaled(b as nat).0, unit_label(scaled(b as nat).1)),
        None => (0, ""@),
    }
}

/// The opening of an entry's line: saved cursor, tag mark and colors.
pub open spec fn line_head(f: File, p: Palette) -> Seq<char> {
    let tag = if f.tagged {
        p.red@ + "*"@
    } else {
        Seq::<char>::empty()
    };
    let color = match f.color {
        Some(c) => c@,
        None => p.normal@,
    };
    let selection_color = if f.selected {
        p.yellow@
    } else {
        Seq::<char>::empty()
    };
    save_seq() + tag + color + selection_color
}

/// The name as shown, indented where the entry is selected.
pub open spec fn shown_name(f: File) -> Seq<char> {
    if f.selected {
        "  "@ + f.name@
    } else {
        f.name@
    }
}

/// The name cut to `xsize` columns and padded so that it covers them; the tag
/// mark takes one column.
pub open spec fn line_body(f: File, p: Palette, xsize: nat) -> Seq<char> {
    let tag_len: nat = if f.tagged {
        1
    } else {
        0
    };
    let sized = sized_text(shown_name(f), xsize);
    let padding = sat_sub(sat_sub(xsize, sat_sub(utf8_len(sized), cjk_width(sized))), tag_len);
    padded(sized, padding) + p.normal@
}

/// The close of an entry's line: back to its start, right to where the size
/// stands, the link mark of a symbolic link, the size and its unit.
pub open spec fn line_tail(f: File, p: Palette, xsize: nat) -> Seq<char> {
    let link = if f.target is Some {
        p.yellow@ + "--> "@ + p.highlight@
    } else {
        Seq::<char>::empty()
    };
    let link_len: nat = if f.target is Some {
        4
    } else {
        0
    };
    let size = size_figure(f);
    let size_pos = sat_sub(xsize, decimal(size.0).len() + utf8_len(size.1) + link_len);
    restore_seq() + right_seq(size_pos) + link + p.highlight@ + decimal(size.0) + size.1
}

/// The line of one entry in a view of `xsize` columns.
pub open spec fn line_of(f: File, p: Palette, xsize: nat) -> Seq<char> {
    line_head(f, p) + line_body(f, p, xsize) + line_tail(f, p, xsize)
}

fn render_head(f: &File, p: &Palette) -> (r: String)
    ensures
        r@ == line_head(*f, *p),
{
    let mut out = cursor_save();
    if f.tagged {
        out.append(p.red.as_str());
        out.append("*");
    }
    match &f.color {
        Some(c) => out.append(c.as_str()),
        None => out.append(p.normal.as_str()),
    }
    if f.selected {
        out.append(p.yellow.as_str());
    }
    out
}

fn render_body(f: &File, p: &Palette, xsize: u16) -> (r: String)
    ensures
        r@ == line_body(*f, *p, xsize as nat),
{
    let mut name = if f.selected {
        String::from_str("  ")
    } else {
        String::new()
    };
    name.append(f.name.as_str());
    let tag_len: u128 = if f.tagged {
        1
    } else {
        0
    };
    let mut body = sized_string(name.as_str(), xsize);
    let bytes = byte_len(body.as_str());
    let width = width_cjk(body.as_str()) as u128;
    let gap: u128 = if bytes >= width {
        bytes - width
    } else {
        0
    };
    let room: u128 = if (xsize as u128) >= gap {
        xsize as u128 - gap
    } else {
        0
    };
    let padding: u128 = if room >= tag_len {
        room - tag_len
    } else {
        0
    };
    pad(&mut body, padding as usize);
    body.append(p.normal.as_str());
    body
}

fn render_tail(f: &File, p: &Palette, xsize: u16) -> (r: String)
    ensures
        r@ == line_tail(*f, *p, xsize as nat),
{
    let (size, unit) = f.calculate_size();
    let size_text = decimal_string(size);
    let link_len: u128 = if f.target.is_some() {
        4
    } else {
        0
    };
    let suffix_len: u128 = size_text.as_str().unicode_len() as u128 + byte_len(unit.as_str())
        + link_len;
    let size_pos: u16 = if (xsize as u128) >= suffix_len {
        (xsize as u128 - suffix_len) as u16
    } else {
        0
    };
    let mut out = cursor_restore();
    out.append(cursor_right(size_pos).as_str());
    if f.target.is_some() {
        out.append(p.yellow.as_str());
        out.append("--> ");
        out.append(p.highlight.as_str());
    }
    out.append(p.highlight.as_str());
    out.append(size_text.as_str());
    out.append(unit.as_str());
    out
}

/// The lines of entries `fs` in a view of `xsize` columns.
pub open spec fn lines_of(fs: Seq<File>, p: Palette, xsize: u16) -> Seq<Seq<char>> {
    fs.map_values(|f: File| line_of(f, p, xsize as nat))
}

pub open spec fn views(v: Seq<String>) -> Seq<Seq<char>> {
    v.map_values(|s: String| s@)
}

impl ListView {
    /// The lines of the entries shown, in display order.
    pub open spec fn rendered(self) -> Seq<Seq<char>> {
        lines_of(self.content.shown_files(), self.core.palette, self.core.xsize)
    }

    /// Renders the line of one entry.
    pub fn render_line(&self, file: &File) -> (r: String)
        ensures
            r@ == line_of(*file, self.core.palette, self.core.xsize as nat),
    {
        let mut out = render_head(file, &self.core.palette);
        out.append(render_body(file, &self.core.palette, self.core.xsize).as_str());
        out.append(render_tail(file, &self.core.palette, self.core.xsize).as_str());
        out
    }

    /// The lines of the entries shown, in display order.
    pub fn render(&self) -> (r: Vec<String>)
        requires
            self.content.wf(),
        ensures
            views(r@) == self.rendered(),
    {
        let n = self.content.len();
        let mut out: Vec<String> = Vec::new();
        let mut i: usize = 0;
        while i < n
            invariant
                self.content.wf(),
                n == self.content.spec_len(),
                i <= n,
                views(out@) == self.rendered().take(i as int),
            decreases n - i,
        {
            let line = self.render_line(self.content.get(i));
            assert(self.rendered()[i as int] == line@);
            let ghost prev = out@;
            out.push(line);
            assert(out@ == prev.push(line));
            assert(views(out@) =~= views(prev).push(line@));
            assert(views(out@) =~= self.rendered().take(i as int + 1));
            i = i + 1;
        }
        assert(self.rendered().take(n as int) =~= self.rendered());
        out
    }
}

/// Where the remembered entry lands: its first position, else the top.
pub open spec fn reselected(fs: Seq<File>, kept: Option<Value>) -> nat {
    match kept {
        Some(v) => relocated(fs, v),
        None => 0,
    }
}

/// The step a seek by modification time takes from `i` among `n` entries:
/// the newest where not seeking or at the end, else the next.
pub open spec fn next_time_step(i: nat, n: nat, seeking: bool) -> nat {
    if !seeking || i + 1 >= n {
        0
    } else {
        i + 1
    }
}

/// The step back: the oldest where not seeking or at the start, else the previous.
pub open spec fn prev_time_step(i: nat, n: nat, seeking: bool) -> nat {
    if n == 0 {
        0
    } else if !seeking || i == 0 {
        (n - 1) as nat
    } else {
        (i - 1) as nat
    }
}

/// Two cores that place and color the view alike.
pub open spec fn same_frame(a: WidgetCore, b: WidgetCore) -> bool {
    &&& a.xpos == b.xpos
    &&& a.ypos == b.ypos
    &&& a.xsize == b.xsize
    &&& a.ysize == b.ysize
    &&& a.palette == b.palette
}

impl ListView {
    /// What the entry under the selection holds, where there is one.
    pub open spec fn selected_value(self) -> Option<Value> {
        if self.lines > 0 {
            Some(self.spec_selected().value())
        } else {
            None
        }
    }

    /// The path of the entry under the selection, where there is one.
    pub open spec fn selected_path(self) -> Option<Seq<char>> {
        if self.lines > 0 {
            Some(self.spec_selected().path@)
        } else {
            None
        }
    }

    /// The view after its listing was arranged anew under `c` with the same
    /// entries: the entry that was selected is selected again, the window
    /// follows it, the cache is rebuilt.
    pub open spec fn rearranged(self, old: ListView, c: crate::files::Criteria) -> bool {
        &&& self.wf()
        &&& self.content.files == old.content.files
        &&& self.content.criteria() == c
        &&& self.selection == reselected(self.content.shown_files(), old.selected_value())
        &&& old.lines > 0 && (exists|k: int|
            0 <= k < self.content.shown_files().len() && #[trigger] self.content.shown_files()[k].value()
                == old.spec_selected().value()) ==> self.lines > 0 && self.spec_selected().value()
            == old.spec_selected().value()
        &&& self.offset == lookahead_offset(self.selection as nat, old.ysize())
        &&& self.seeking == old.seeking
        &&& views(self.buffer@) == self.rendered()
        &&& !self.core.dirty
        &&& same_frame(self.core, old.core)
        &&& old.ysize() >= 3 ==> self.in_window()
    }

    /// The entries shown under the present criteria but ordered by time,
    /// without directories first.
    pub open spec fn time_files(self) -> Seq<File> {
        let c = self.content.criteria();
        pick(
            self.content.files@,
            crate::files::arranged(
                self.content.keys(),
                (SortBy::MTime, c.1, false, c.3, c.4),
                self.content.files@.len(),
            ),
        )
    }

    /// Takes over a change of the listing, counts the entries shown, steps
    /// the selection back by one where it fell off the end, and renders the
    /// lines anew where the view or the listing changed or their number did.
    pub fn refresh(&mut self)
        requires
            old(self).content.wf(),
            old(self).selection <= old(self).content.spec_len(),
        ensures
            final(self).wf(),
            final(self).lines == old(self).content.spec_len(),
            final(self).selection == if old(self).selection >= final(self).lines
                && old(self).selection != 0 {
                old(self).selection - 1
            } else {
                old(self).selection as int
            },
            final(self).offset == old(self).offset,
            final(self).seeking == old(self).seeking,
            final(self).content == (Files { dirty: false, ..old(self).content }),
            final(self).core == (WidgetCore { dirty: false, ..old(self).core }),
            old(self).core.dirty || old(self).content.dirty || old(self).buffer@.len()
                != old(self).content.spec_len() ==> views(final(self).buffer@)
                == final(self).rendered(),
            !(old(self).core.dirty || old(self).content.dirty || old(self).buffer@.len()
                != old(self).content.spec_len()) ==> final(self).buffer == old(self).buffer,
    {
        Listable::on_refresh(self);
        self.lines = self.content.len();
        if self.selection >= self.lines && self.selection != 0 {
            self.selection = self.selection - 1;
        }
        if self.core.dirty || self.buffer.len() != self.content.len() {
            self.buffer = self.render();
            self.core.dirty = false;
        }
    }

    fn remember(&self) -> (r: Option<File>)
        requires
            self.wf(),
        ensures
            match r {
                Some(f) => self.lines > 0 && f.value() == self.spec_selected().value(),
                None => self.lines == 0,
            },
    {
        if self.lines > 0 {
            Some(self.clone_selected_file())
        } else {
            None
        }
    }

    /// Selects the remembered entry again, or the top.
    fn reselect(&mut self, kept: &Option<File>)
        requires
            old(self).wf(),
        ensures
            final(self).wf(),
            final(self).same_but_position(*old(self)),
            final(self).seeking == old(self).seeking,
            final(self).selection == reselected(
                old(self).content.shown_files(),
                match kept {
                    Some(f) => Some(f.value()),
                    None => None,
                },
            ),
            final(self).offset == lookahead_offset(final(self).selection as nat, old(self).ysize()),
            match kept {
                Some(f) => (exists|k: int|
                    0 <= k < old(self).content.shown_files().len()
                        && #[trigger] old(self).content.shown_files()[k].value() == f.value())
                    ==> final(self).lines > 0 && final(self).spec_selected().value() == f.value(),
                None => true,
            },
    {
        match kept {
            Some(f) => self.select_file(f),
            None => self.set_selection(0),
        }
    }

    /// Arranges the listing anew after its criteria changed, keeping what is
    /// shown, and selects the remembered entry again.
    fn resort(&mut self, kept: &Option<File>, Ghost(prev): Ghost<crate::files::Criteria>)
        requires
            old(self).content.criteria().3 == prev.3,
            old(self).content.criteria().4 == prev.4,
            old(self).content.order@ == old(self).content.arranged_by(prev),
            old(self).content.files@.len() + 3 <= usize::MAX,
            old(self).lines == old(self).content.spec_len(),
            old(self).selection < old(self).lines || old(self).selection == 0,
        ensures
            final(self).wf(),
            final(self).content.files == old(self).content.files,
            final(self).content.criteria() == old(self).content.criteria(),
            final(self).content.filter == old(self).content.filter,
            final(self).content.dirty,
            final(self).lines == old(self).lines,
            final(self).buffer == old(self).buffer,
            final(self).core == old(self).core,
            final(self).seeking == old(self).seeking,
            final(self).selection == reselected(
                final(self).content.shown_files(),
                match kept {
                    Some(f) => Some(f.value()),
                    None => None,
                },
            ),
            final(self).offset == lookahead_offset(final(self).selection as nat, old(self).ysize()),
    {
        proof {
            crate::files::lemma_same_len(
                old(self).content.keys(),
                old(self).content.criteria(),
                prev,
                old(self).content.files@.len(),
            );
        }
        self.content.sort();
        self.content.dirty = true;
        self.reselect(kept);
    }
}

impl ListView {
    /// Arranges anew under the present criteria, which show what `prev`
    /// showed, selects the remembered entry again and refreshes.
    fn rearrange(&mut self, kept: &Option<File>, Ghost(prev): Ghost<crate::files::Criteria>)
        requires
            old(self).content.criteria().3 == prev.3,
            old(self).content.criteria().4 == prev.4,
            old(self).content.order@ == old(self).content.arranged_by(prev),
            old(self).content.files@.len() + 3 <= usize::MAX,
            old(self).lines == old(self).content.spec_len(),
            old(self).selection < old(self).lines || old(self).selection == 0,
            kept matches Some(f) ==> old(self).lines > 0 && f.value()
                == old(self).spec_selected().value(),
            old(self).lines > 0 ==> kept is Some,
        ensures
            old(self).lines > 0 ==> final(self).lines > 0 && final(self).spec_selected().value()
                == old(self).spec_selected().value(),
            final(self).wf(),
            final(self).content.files == old(self).content.files,
            final(self).content.criteria() == old(self).content.criteria(),
            final(self).content.filter == old(self).content.filter,
            final(self).selection == reselected(
                final(self).content.shown_files(),
                match kept {
                    Some(f) => Some(f.value()),
                    None => None,
                },
            ),
            final(self).offset == lookahead_offset(final(self).selection as nat, old(self).ysize()),
            final(self).seeking == old(self).seeking,
            views(final(self).buffer@) == final(self).rendered(),
            final(self).core == (WidgetCore { dirty: false, ..old(self).core }),
    {
        let ghost before = *self;
        self.resort(kept, Ghost(prev));
        self.refresh();
        proof {
            if before.lines > 0 {
                let ks = before.content.keys();
                let n = before.content.files@.len();
                let c = self.content.criteria();
                crate::files::lemma_arranged_members(ks, prev, n);
                crate::files::lemma_arranged_members(ks, c, n);
                crate::files::lemma_arranged_bound(ks, prev, n);
                crate::files::lemma_arranged_bound(ks, c, n);
                let x0 = before.content.order@[before.selection as int];
                assert(before.content.order@.contains(x0));
                assert(self.content.order@.contains(x0));
                let k = choose|k: int| 0 <= k < self.content.order@.len() && self.content.order@[k] == x0;
                assert(self.content.shown_files()[k] == before.spec_selected());
                crate::files::lemma_locate(self.content.shown_files(), before.spec_selected().value());
            }
        }
    }

    /// Orders by the next sort key, keeping the selected entry selected.
    pub fn cycle_sort(&mut self)
        requires
            old(self).wf(),
        ensures
            final(self).rearranged(
                *old(self),
                (
                    old(self).content.sort.spec_next(),
                    old(self).content.reverse,
                    old(self).content.dirs_first,
                    old(self).content.show_hidden,
                    opt_view(old(self).content.filter),
                ),
            ),
            final(self).core.status@ == "Sorting by: "@ + final(self).content.sort.spec_label(),
            old(self).lines > 0 ==> final(self).lines > 0 && final(self).spec_selected().value()
                == old(self).spec_selected().value(),
    {
        let kept = self.remember();
        let ghost prev = self.content.criteria();
        self.content.cycle_sort();
        self.rearrange(&kept, Ghost(prev));
        let mut status = String::from_str("Sorting by: ");
        status.append(self.content.sort.label().as_str());
        self.core.status = status;
    }

    /// Reverses the order, keeping the selected entry selected.
    pub fn reverse_sort(&mut self)
        requires
            old(self).wf(),
        ensures
            final(self).rearranged(
                *old(self),
                (
                    old(self).content.sort,
                    !old(self).content.reverse,
                    old(self).content.dirs_first,
                    old(self).content.show_hidden,
                    opt_view(old(self).content.filter),
                ),
            ),
            final(self).core.status@ == "Reversed sorting by: "@
                + final(self).content.sort.spec_label(),
            old(self).lines > 0 ==> final(self).lines > 0 && final(self).spec_selected().value()
                == old(self).spec_selected().value(),
    {
        let kept = self.remember();
        let ghost prev = self.content.criteria();
        self.content.reverse_sort();
        self.rearrange(&kept, Ghost(prev));
        let mut status = String::from_str("Reversed sorting by: ");
        status.append(self.content.sort.label().as_str());
        self.core.status = status;
    }

    /// Flips whether directories come first, keeping the selected entry selected.
    pub fn toggle_dirs_first(&mut self)
        requires
            old(self).wf(),
        ensures
            final(self).rearranged(
                *old(self),
                (
                    old(self).content.sort,
                    old(self).content.reverse,
                    !old(self).content.dirs_first,
                    old(self).content.show_hidden,
                    opt_view(old(self).content.filter),
                ),
            ),
            final(self).core.status@ == if final(self).content.dirs_first {
                "Directories first: true"@
            } else {
                "Directories first: false"@
            },
            old(self).lines > 0 ==> final(self).lines > 0 && final(self).spec_selected().value()
                == old(self).spec_selected().value(),
    {
        let kept = self.remember();
        let ghost prev = self.content.criteria();
        self.content.dirs_first = !self.content.dirs_first;
        self.rearrange(&kept, Ghost(prev));
        self.core.status = if self.content.dirs_first {
            String::from_str("Directories first: true")
        } else {
            String::from_str("Directories first: false")
        };
    }

    /// Flips whether hidden entries are shown, keeping the selected entry
    /// selected where it is still shown, else selecting the top.
    pub fn toggle_hidden(&mut self)
        requires
            old(self).wf(),
        ensures
            final(self).rearranged(
                *old(self),
                (
                    old(self).content.sort,
                    old(self).content.reverse,
                    old(self).content.dirs_first,
                    !old(self).content.show_hidden,
                    opt_view(old(self).content.filter),
                ),
            ),
            final(self).core.status == old(self).core.status,
    {
        let kept = self.remember();
        self.content.toggle_hidden();
        self.content.reload_files();
        self.lines = self.content.len();
        self.selection = 0;
        self.reselect(&kept);
        self.refresh();
    }
}

/// What the entry at position `j` of `fs` holds, where there is one.
pub open spec fn value_at(fs: Seq<File>, j: nat) -> Option<Value> {
    if j < fs.len() {
        Some(fs[j as int].value())
    } else {
        None
    }
}

impl ListView {
    /// The position a seek lands on among the entries ordered by time, before
    /// the order is restored.
    pub open spec fn time_position(self) -> nat {
        reselected(self.time_files(), self.selected_value())
    }

    /// The view after a step to position `step` among the entries of `old`
    /// ordered by time: that entry is selected in the order of `old`.
    pub open spec fn seeked(self, old: ListView, step: nat) -> bool {
        &&& self.wf()
        &&& self.seeking
        &&& self.content.files == old.content.files
        &&& self.content.criteria() == old.content.criteria()
        &&& self.selection == reselected(
            self.content.shown_files(),
            value_at(old.time_files(), step),
        )
        &&& match value_at(old.time_files(), step) {
            Some(v) => self.lines > 0 && self.spec_selected().value() == v,
            None => true,
        }
    }

    /// The view after `select_next_mtime` on `old`.
    pub open spec fn after_next_mtime(self, old: ListView) -> bool {
        self.seeked(old, next_time_step(old.time_position(), old.time_files().len(), old.seeking))
    }

    /// The view after `select_prev_mtime` on `old`.
    pub open spec fn after_prev_mtime(self, old: ListView) -> bool {
        self.seeked(old, prev_time_step(old.time_position(), old.time_files().len(), old.seeking))
    }

    /// Steps to the next entry by modification time, newest first, and selects
    /// it in the present order; starts at the newest where the last move was
    /// not such a step or the oldest was reached.
    pub fn select_next_mtime(&mut self)
        requires
            old(self).wf(),
        ensures
            final(self).after_next_mtime(*old(self)),
            final(self).wf(),
            final(self).seeking,
            final(self).content.files == old(self).content.files,
            final(self).content.criteria() == old(self).content.criteria(),
            final(self).selection == reselected(
                final(self).content.shown_files(),
                value_at(
                    old(self).time_files(),
                    next_time_step(
                        old(self).time_position(),
                        old(self).time_files().len(),
                        old(self).seeking,
                    ),
                ),
            ),
            final(self).offset == lookahead_offset(final(self).selection as nat, old(self).ysize()),
            views(final(self).buffer@) == final(self).rendered(),
            final(self).core == (WidgetCore { dirty: false, ..old(self).core }),
            old(self).ysize() >= 3 ==> final(self).in_window(),
    {
        let kept = self.remember();
        let ghost prev = self.content.criteria();
        let dirs_first = self.content.dirs_first;
        let sort = self.content.sort;
        self.content.dirs_first = false;
        self.content.sort = SortBy::MTime;
        self.resort(&kept, Ghost(prev));
        assert(self.content.shown_files() == old(self).time_files());
        if !self.seeking || self.selection + 1 == self.content.len() {
            self.selection = 0;
            self.offset = 0;
        } else {
            self.move_down();
        }
        let kept = self.remember();
        let ghost timed = self.content.criteria();
        self.content.dirs_first = dirs_first;
        self.content.sort = sort;
        self.seeking = true;
        self.rearrange(&kept, Ghost(timed));
    }

    /// Steps to the previous entry by modification time and selects it in the
    /// present order; starts at the oldest where the last move was not such a
    /// step or the newest was reached.
    pub fn select_prev_mtime(&mut self)
        requires
            old(self).wf(),
        ensures
            final(self).after_prev_mtime(*old(self)),
            final(self).wf(),
            final(self).seeking,
            final(self).content.files == old(self).content.files,
            final(self).content.criteria() == old(self).content.criteria(),
            final(self).selection == reselected(
                final(self).content.shown_files(),
                value_at(
                    old(self).time_files(),
                    prev_time_step(
                        old(self).time_position(),
                        old(self).time_files().len(),
                        old(self).seeking,
                    ),
                ),
            ),
            final(self).offset == lookahead_offset(final(self).selection as nat, old(self).ysize()),
            views(final(self).buffer@) == final(self).rendered(),
            final(self).core == (WidgetCore { dirty: false, ..old(self).core }),
            old(self).ysize() >= 3 ==> final(self).in_window(),
    {
        let kept = self.remember();
        let ghost prev = self.content.criteria();
        let dirs_first = self.content.dirs_first;
        let sort = self.content.sort;
        self.content.dirs_first = false;
        self.content.sort = SortBy::MTime;
        self.resort(&kept, Ghost(prev));
        assert(self.content.shown_files() == old(self).time_files());
        if self.lines > 0 {
            if !self.seeking || self.selection == 0 {
                self.set_selection(self.content.len() - 1);
            } else {
                self.move_up();
            }
        }
        let kept = self.remember();
        let ghost timed = self.content.criteria();
        self.content.dirs_first = dirs_first;
        self.content.sort = sort;
        self.seeking = true;
        self.rearrange(&kept, Ghost(timed));
    }
}

/// Why a search found nothing.
#[derive(Clone, Copy, PartialEq, Eq, Structural, Debug)]
pub enum ListError {
    NotFound,
}

/// The first position in `names` whose text holds `q`, if any.
pub open spec fn first_match(names: Seq<Seq<char>>, q: Seq<char>) -> Option<nat>
    decreases names.len(),
{
    if names.len() == 0 {
        None
    } else {
        match first_match(names.drop_last(), q) {
            Some(k) => Some(k),
            None => if crate::files::contains(names.last(), q) {
                Some((names.len() - 1) as nat)
            } else {
                None
            },
        }
    }
}

proof fn lemma_first_match_prefix(names: Seq<Seq<char>>, q: Seq<char>, i: int)
    requires
        0 <= i < names.len(),
    ensures
        first_match(names.take(i + 1), q) == match first_match(names.take(i), q) {
            Some(k) => Some(k),
            None => if crate::files::contains(names[i], q) {
                Some(i as nat)
            } else {
                None
            },
        },
{
    assert(names.take(i + 1).drop_last() =~= names.take(i));
}

/// The first of `names` that holds `query`.
pub fn first_match_in(names: &Vec<String>, query: &str) -> (r: Option<usize>)
    ensures
        r matches Some(k) ==> first_match(views(names@), query@) == Some(k as nat),
        r is None ==> first_match(views(names@), query@) is None,
{
    let mut i: usize = 0;
    while i < names.len()
        invariant
            i <= names@.len(),
            first_match(views(names@).take(i as int), query@) is None,
        decreases names@.len() - i,
    {
        proof {
            lemma_first_match_prefix(views(names@), query@, i as int);
        }
        if text_contains(names[i].as_str(), query) {
            proof {
                first_match_extend(views(names@), query@, i as int);
            }
            return Some(i);
        }
        i = i + 1;
    }
    assert(views(names@).take(i as int) =~= views(names@));
    None
}

proof fn first_match_extend(names: Seq<Seq<char>>, q: Seq<char>, i: int)
    requires
        0 <= i < names.len(),
        first_match(names.take(i + 1), q) == Some(i as nat),
    ensures
        first_match(names, q) == Some(i as nat),
    decreases names.len(),
{
    if names.len() == i + 1 {
        assert(names.take(i + 1) =~= names);
    } else {
        assert(names.drop_last().take(i + 1) =~= names.take(i + 1));
        first_match_extend(names.drop_last(), q, i);
    }
}

proof fn lemma_first_match_bound(names: Seq<Seq<char>>, q: Seq<char>)
    ensures
        first_match(names, q) matches Some(k) ==> k < names.len(),
    decreases names.len(),
{
    if names.len() > 0 {
        lemma_first_match_bound(names.drop_last(), q);
    }
}

/// The lower-case names of `fs`.
pub open spec fn lowered(fs: Seq<File>) -> Seq<Seq<char>> {
    fs.map_values(|f: File| lower_of(f.name@))
}

impl ListView {
    /// The selection after a step down.
    pub open spec fn down_selection(self) -> nat {
        if self.lines == 0 || self.selection + 1 == self.lines {
            self.selection as nat
        } else {
            (self.selection + 1) as nat
        }
    }

    /// The offset after a step down.
    pub open spec fn down_offset(self) -> nat {
        if self.lines > 0 && self.selection + 1 != self.lines && self.selection + 1 >= self.ysize()
            + self.offset {
            (self.offset + 1) as nat
        } else {
            self.offset as nat
        }
    }

    /// The view after the entry under the selection changed into a file whose
    /// line is `line`: that line alone is patched where the cache holds it,
    /// then the selection steps down.
    pub open spec fn patched(self, old: ListView) -> bool {
        &&& self.wf()
        &&& self.content.order == old.content.order
        &&& self.content.criteria() == old.content.criteria()
        &&& self.core == old.core
        &&& self.lines == old.lines
        &&& self.selection == old.down_selection()
        &&& self.offset == old.down_offset()
        &&& old.in_window() ==> self.in_window()
        &&& old.lines > 0 && old.selection < old.buffer@.len() ==> {
            &&& self.buffer@ == old.buffer@.update(
                old.selection as int,
                self.buffer@[old.selection as int],
            )
            &&& self.buffer@[old.selection as int]@ == line_of(
                self.content.shown_files()[old.selection as int],
                self.core.palette,
                self.core.xsize as nat,
            )
        }
        &&& !(old.lines > 0 && old.selection < old.buffer@.len()) ==> self.buffer == old.buffer
    }

    fn patch_selected_line(&mut self)
        requires
            old(self).wf(),
        ensures
            final(self).wf(),
            final(self).content == old(self).content,
            final(self).core == old(self).core,
            final(self).lines == old(self).lines,
            final(self).selection == old(self).down_selection(),
            final(self).offset == old(self).down_offset(),
            old(self).lines > 0 && old(self).selection < old(self).buffer@.len() ==> {
                &&& final(self).buffer@ == old(self).buffer@.update(
                    old(self).selection as int,
                    final(self).buffer@[old(self).selection as int],
                )
                &&& final(self).buffer@[old(self).selection as int]@ == line_of(
                    old(self).spec_selected(),
                    old(self).core.palette,
                    old(self).core.xsize as nat,
                )
            },
            !(old(self).lines > 0 && old(self).selection < old(self).buffer@.len())
                ==> final(self).buffer == old(self).buffer,
    {
        if self.lines > 0 && self.selection < self.buffer.len() {
            let line = self.render_line(self.selected_file());
            self.buffer.set(self.selection, line);
        }
        self.move_down();
    }

    /// Flips the selection mark of the entry under the selection, patches its
    /// line and steps down.
    pub fn multi_select_file(&mut self)
        requires
            old(self).wf(),
        ensures
            final(self).patched(*old(self)),
            old(self).lines > 0 ==> final(self).content.shown_files()[old(self).selection as int].selected
                == !old(self).spec_selected().selected,
            old(self).lines == 0 ==> final(self).content == old(self).content,
            final(self).content.files@.len() == old(self).content.files@.len(),
            old(self).lines > 0 ==> (File {
                selected: old(self).spec_selected().selected,
                ..final(self).content.shown_files()[old(self).selection as int]
            }).same_as(old(self).spec_selected()),
            old(self).lines > 0 ==> forall|j: int|
                0 <= j < old(self).content.files@.len() && j != old(self).content.order@[old(self).selection as int] ==> #[trigger] final(self).content.files@[j]
                    == old(self).content.files@[j],
    {
        if self.lines > 0 {
            self.content.toggle_selection_at(self.selection);
        }
        self.patch_selected_line();
    }

    /// Flips the tag of the entry under the selection, patches its line and
    /// steps down.
    pub fn toggle_tag(&mut self)
        requires
            old(self).wf(),
        ensures
            final(self).patched(*old(self)),
            old(self).lines > 0 ==> final(self).content.shown_files()[old(self).selection as int].tagged
                == !old(self).spec_selected().tagged,
            old(self).lines == 0 ==> final(self).content == old(self).content,
            final(self).content.files@.len() == old(self).content.files@.len(),
            old(self).lines > 0 ==> (File {
                tagged: old(self).spec_selected().tagged,
                ..final(self).content.shown_files()[old(self).selection as int]
            }).same_as(old(self).spec_selected()),
            old(self).lines > 0 ==> forall|j: int|
                0 <= j < old(self).content.files@.len() && j != old(self).content.order@[old(self).selection as int] ==> #[trigger] final(self).content.files@[j]
                    == old(self).content.files@[j],
    {
        if self.lines > 0 {
            self.content.toggle_tag_at(self.selection);
        }
        self.patch_selected_line();
    }

    /// Selects the first entry in display order whose name holds `name`,
    /// letter case aside.
    pub fn find_file(&mut self, name: &str) -> (r: Result<(), ListError>)
        requires
            old(self).wf(),
        ensures
            final(self).wf(),
            match first_match(lowered(old(self).content.shown_files()), lower_of(name@)) {
                Some(k) => {
                    &&& r is Ok
                    &&& final(self).same_but_position(*old(self))
                    &&& final(self).seeking == old(self).seeking
                    &&& final(self).selection == k
                    &&& final(self).offset == lookahead_offset(k, old(self).ysize())
                },
                None => r == Err::<(), ListError>(ListError::NotFound) && *final(self) == *old(self),
            },
            old(self).in_window() && old(self).ysize() >= 3 ==> final(self).in_window(),
    {
        let query = lowercase(name);
        let n = self.content.len();
        let mut names: Vec<String> = Vec::new();
        let mut i: usize = 0;
        while i < n
            invariant
                self.wf(),
                n == self.content.spec_len(),
                i <= n,
                views(names@) == lowered(self.content.shown_files()).take(i as int),
            decreases n - i,
        {
            let ghost before = names@;
            let low = lowercase(self.content.get(i).name.as_str());
            names.push(low);
            assert(views(names@) =~= views(before).push(low@));
            assert(lowered(self.content.shown_files())[i as int] == low@);
            assert(views(names@) =~= lowered(self.content.shown_files()).take(i as int + 1));
            i = i + 1;
        }
        assert(lowered(self.content.shown_files()).take(i as int) =~= lowered(
            self.content.shown_files(),
        ));
        proof {
            lemma_first_match_bound(lowered(self.content.shown_files()), query@);
        }
        match first_match_in(&names, query.as_str()) {
            Some(k) => {
                self.set_selection(k);
                Ok(())
            },
            None => Err(ListError::NotFound),
        }
    }

    /// Sets or clears the filter; where the selection lies past the entries
    /// now shown it moves to their count, and the refresh steps it back onto
    /// the last.
    pub fn filter(&mut self, filter: Option<String>)
        requires
            old(self).wf(),
        ensures
            final(self).wf(),
            final(self).content.files == old(self).content.files,
            final(self).content.criteria() == (
                old(self).content.sort,
                old(self).content.reverse,
                old(self).content.dirs_first,
                old(self).content.show_hidden,
                opt_view(filter),
            ),
            ({
                let n = final(self).lines as nat;
                let s = if old(self).selection > n {
                    n
                } else {
                    old(self).selection as nat
                };
                &&& final(self).selection == if s >= n && s != 0 {
                    s - 1
                } else {
                    s as int
                }
                &&& final(self).offset == if old(self).selection > n {
                    lookahead_offset(n, old(self).ysize()) as int
                } else {
                    old(self).offset as int
                }
            }),
            final(self).seeking == old(self).seeking,
            views(final(self).buffer@) == final(self).rendered(),
            final(self).core == (WidgetCore { dirty: false, ..old(self).core }),
    {
        self.content.set_filter(filter);
        let len = self.content.len();
        proof {
            crate::files::lemma_len_bound(self.content);
        }
        if self.selection > len {
            let ysize = self.core.ysize as usize;
            self.offset = if len + 3 > ysize {
                len + 3 - ysize
            } else {
                0
            };
            self.selection = len;
        }
        self.refresh();
    }
}

impl ListView {
    /// Number of cached lines that fall in the window.
    pub open spec fn rows_shown(self) -> nat {
        if self.offset < self.buffer@.len() {
            let rest = (self.buffer@.len() - self.offset) as nat;
            if rest < self.ysize() {
                rest
            } else {
                self.ysize()
            }
        } else {
            0
        }
    }

    /// Row `i` of the window: its line placed on its screen row, inverted where
    /// it is the selection.
    pub open spec fn row_text(self, i: nat) -> Seq<char> {
        let p = self.core.palette;
        p.normal@ + (if self.offset + i == self.selection {
            p.invert@
        } else {
            Seq::<char>::empty()
        }) + goto_seq(self.core.xpos as nat, (self.core.ypos + i) as nat) + self.buffer@[self.offset
            + i]@ + p.reset@
    }

    /// The first `n` rows of the window.
    pub open spec fn rows_text(self, n: nat) -> Seq<char>
        decreases n,
    {
        if n == 0 {
            Seq::<char>::empty()
        } else {
            self.rows_text((n - 1) as nat) + self.row_text((n - 1) as nat)
        }
    }

    /// Blank rows from the end of the lines down to row `k` of the window.
    pub open spec fn filler_text(self, k: nat) -> Seq<char>
        decreases k,
    {
        if k <= self.rows_shown() {
            Seq::<char>::empty()
        } else {
            self.filler_text((k - 1) as nat) + goto_seq(
                self.core.xpos as nat,
                (self.core.ypos + k - 1) as nat,
            ) + spaces(self.core.xsize as nat)
        }
    }

    /// What is drawn: the lines in the window, then blank rows to its bottom.
    pub open spec fn drawlist(self) -> Seq<char> {
        self.core.palette.reset@ + self.rows_text(self.rows_shown()) + self.filler_text(
            self.ysize(),
        )
    }

    /// Draws the lines that fall in the window and blanks the rows below.
    pub fn get_drawlist(&self) -> (r: String)
        requires
            self.core.xpos != 0 || self.core.ypos != 0,
            self.core.ypos + self.core.ysize <= u16::MAX,
        ensures
            r@ == self.drawlist(),
    {
        let p = &self.core.palette;
        let ysize = self.core.ysize as usize;
        let shown: usize = if self.offset < self.buffer.len() {
            if self.buffer.len() - self.offset < ysize {
                self.buffer.len() - self.offset
            } else {
                ysize
            }
        } else {
            0
        };
        let blen = self.buffer.len();
        let mut out = String::new();
        out.append(p.reset.as_str());
        let mut i: usize = 0;
        while i < shown
            invariant
                shown == self.rows_shown(),
                shown <= ysize,
                shown == 0 || self.offset + shown <= self.buffer@.len(),
                blen == self.buffer@.len(),
                ysize == self.ysize(),
                i <= shown,
                self.core.ypos + self.core.ysize <= u16::MAX,
                self.core.xpos != 0 || self.core.ypos != 0,
                p == &self.core.palette,
                out@ == p.reset@ + self.rows_text(i as nat),
            decreases shown - i,
        {
            out.append(p.normal.as_str());
            if self.offset + i == self.selection {
                out.append(p.invert.as_str());
            }
            let row = (self.core.ypos as usize + i) as u16;
            out.append(cursor_goto(self.core.xpos, row).as_str());
            out.append(self.buffer[self.offset + i].as_str());
            out.append(p.reset.as_str());
            i = i + 1;
        }
        let mut k: usize = shown;
        assert(self.filler_text(k as nat) == Seq::<char>::empty());
        while k < ysize
            invariant
                shown == self.rows_shown(),
                shown <= k <= ysize,
                ysize == self.ysize(),
                self.core.ypos + self.core.ysize <= u16::MAX,
                self.core.xpos != 0 || self.core.ypos != 0,
                out@ == p.reset@ + self.rows_text(shown as nat) + self.filler_text(k as nat),
            decreases ysize - k,
        {
            let row = (self.core.ypos as usize + k) as u16;
            out.append(cursor_goto(self.core.xpos, row).as_str());
            let mut blank = String::new();
            pad(&mut blank, self.core.xsize as usize);
            assert(blank@ =~= spaces(self.core.xsize as nat));
            out.append(blank.as_str());
            k = k + 1;
        }
        out
    }
}

/// The path two levels above `p`, where there is one.
pub open spec fn grand_parent_of(p: Seq<char>) -> Option<Seq<char>> {
    match parent_of(p) {
        Some(q) => parent_of(q),
        None => None,
    }
}

pub open spec fn min_nat(a: nat, b: nat) -> nat {
    if a < b {
        a
    } else {
        b
    }
}

impl ListView {
    /// The entry under the selection, for changes that keep its place in the
    /// order.
    pub fn selected_file_mut(&mut self) -> (r: &mut File)
        requires
            old(self).wf(),
            old(self).lines > 0,
        ensures
            *r == old(self).spec_selected(),
            final(self).content.files@ == old(self).content.files@.update(
                old(self).content.order@[old(self).selection as int] as int,
                *final(r),
            ),
            final(self).content.order == old(self).content.order,
            final(self).content.criteria() == old(self).content.criteria(),
            final(self).content.dirty == old(self).content.dirty,
            final(self).selection == old(self).selection,
            final(self).offset == old(self).offset,
            final(self).lines == old(self).lines,
            final(self).buffer == old(self).buffer,
            final(self).core == old(self).core,
            final(self).seeking == old(self).seeking,
    {
        proof {
            crate::files::lemma_arranged_bound(
                self.content.keys(),
                self.content.criteria(),
                self.content.files@.len(),
            );
        }
        let k = self.content.order[self.selection];
        &mut self.content.files[k]
    }

    /// The path two levels above the selected entry, where there is one.
    pub fn grand_parent(&self) -> (r: Option<String>)
        requires
            self.wf(),
        ensures
            self.lines > 0 ==> opt_view(r) == grand_parent_of(self.spec_selected().path@),
            self.lines == 0 ==> r is None,
    {
        if self.lines == 0 {
            return None;
        }
        self.selected_file().grand_parent()
    }

    /// The path to open to go two levels up; without one, says so in the
    /// status line.
    pub fn goto_grand_parent(&mut self) -> (r: Option<String>)
        requires
            old(self).wf(),
        ensures
            old(self).lines > 0 ==> opt_view(r) == grand_parent_of(old(self).spec_selected().path@),
            old(self).lines == 0 ==> r is None,
            r is Some ==> *final(self) == *old(self),
            r is None ==> *final(self) == (ListView {
                core: WidgetCore { status: final(self).core.status, ..old(self).core },
                ..*old(self)
            }) && final(self).core.status@ == "Can't go further!"@,
    {
        let r = self.grand_parent();
        if r.is_none() {
            self.core.status = String::from_str("Can't go further!");
        }
        r
    }

    /// The path of the selected entry, to open it.
    pub fn goto_selected(&self) -> (r: Option<String>)
        requires
            self.wf(),
        ensures
            opt_view(r) == self.selected_path(),
    {
        if self.lines == 0 {
            return None;
        }
        Some(self.selected_file().path())
    }

    /// Shows a listing that was opened, from its top; where opening failed,
    /// says why in the status line and leaves the view as it is.
    pub fn goto_path(&mut self, loaded: Result<Files, String>)
        requires
            old(self).wf(),
            loaded matches Ok(f) ==> f.wf(),
        ensures
            final(self).wf(),
            match loaded {
                Ok(f) => {
                    &&& final(self).content == (Files { dirty: false, ..f })
                    &&& final(self).selection == 0
                    &&& final(self).offset == 0
                    &&& old(self).ysize() >= 1 ==> final(self).in_window()
                    &&& views(final(self).buffer@) == final(self).rendered()
                    &&& final(self).core == (WidgetCore { dirty: false, ..old(self).core })
                },
                Err(e) => {
                    &&& *final(self) == (ListView {
                        core: WidgetCore { status: final(self).core.status, ..old(self).core },
                        ..*old(self)
                    })
                    &&& final(self).core.status@ == "Can't open this path: "@ + e@
                },
            },
    {
        match loaded {
            Ok(files) => {
                self.content = files;
                self.selection = 0;
                self.offset = 0;
                self.core.dirty = true;
                self.refresh();
            },
            Err(e) => {
                let mut status = String::from_str("Can't open this path: ");
                status.append(e.as_str());
                self.core.status = status;
            },
        }
    }

    /// What a key does to the view `old`, leaving `self` and giving `r`.
    pub open spec fn key_effect(self, old: ListView, key: Key, r: KeyOutcome) -> bool {
        &&& (self.wf())
        &&& (old.in_window() && old.ysize() >= 3 ==> self.in_window())
        &&& ((key == Key::Up || key == Key::Char('p')) ==> r is Handled && self.selection
            == if old.selection > 0 {
            old.selection - 1
        } else {
            0
        })
        &&& ((key == Key::Down || key == Key::Char('n')) ==> r is Handled && self.selection
            == old.down_selection())
        &&& (key == Key::Char('P') ==> r is Handled && self.selection == if old.selection >= 10 {
            old.selection - 10
        } else {
            0
        })
        &&& (key == Key::Char('N') ==> r is Handled && (old.lines > 0 ==> self.selection
            == min_nat((old.selection + 10) as nat, (old.lines - 1) as nat)))
        &&& (key == Key::Ctrl('s') ==> r is PromptFind && self == old)
        &&& (key == Key::Char('F') ==> r is PromptFilter && self == old)
        &&& (key == Key::Left ==> match r {
            KeyOutcome::Open(p) => old.lines > 0 && Some(p@) == grand_parent_of(
                old.spec_selected().path@,
            ),
            KeyOutcome::Handled => old.lines == 0 || grand_parent_of(
                old.spec_selected().path@,
            ) is None,
            _ => false,
        })
        &&& (key == Key::Right ==> match r {
            KeyOutcome::Open(p) => Some(p@) == old.selected_path(),
            KeyOutcome::Handled => old.lines == 0,
            _ => false,
        })
        &&& (key == Key::Char(' ') ==> r is Handled && self.patched(old))
        &&& (key == Key::Char('t') ==> r is Handled && self.patched(old))
        &&& (key == Key::Char('h') ==> r is Handled && self.rearranged(
            old,
            (
                old.content.sort,
                old.content.reverse,
                old.content.dirs_first,
                !old.content.show_hidden,
                opt_view(old.content.filter),
            ),
        ))
        &&& (key == Key::Char('r') ==> r is Handled && self.rearranged(
            old,
            (
                old.content.sort,
                !old.content.reverse,
                old.content.dirs_first,
                old.content.show_hidden,
                opt_view(old.content.filter),
            ),
        ))
        &&& (key == Key::Char('s') ==> r is Handled && self.rearranged(
            old,
            (
                old.content.sort.spec_next(),
                old.content.reverse,
                old.content.dirs_first,
                old.content.show_hidden,
                opt_view(old.content.filter),
            ),
        ))
        &&& (key == Key::Char('d') ==> r is Handled && self.rearranged(
            old,
            (
                old.content.sort,
                old.content.reverse,
                !old.content.dirs_first,
                old.content.show_hidden,
                opt_view(old.content.filter),
            ),
        ))
        &&& (key == Key::Char('K') ==> r is Handled && self.after_next_mtime(old))
        &&& (key == Key::Char('k') ==> r is Handled && self.after_prev_mtime(old))
        &&& (!(key == Key::Up || key == Key::Down || key == Key::Left || key == Key::Right || key
            == Key::Ctrl('s') || (key matches Key::Char(c) && (c == 'p' || c == 'n' || c
            == 'P' || c == 'N' || c == 'F' || c == ' ' || c == 't' || c == 'h' || c == 'r'
            || c == 's' || c == 'K' || c == 'k' || c == 'd'))) ==> r is Unhandled && self == old)
        &&& ((key == Key::Up || key == Key::Down || key == Key::Char('p') || key == Key::Char('n')
            || key == Key::Char('P') || key == Key::Char('N')) ==> self.content == (Files {
            dirty: false,
            ..old.content
        }) && self.lines == old.lines)
    }

    /// Handles a key: moves, reorders, marks, or tells the caller what to ask
    /// or open. Movement refreshes the view.
    pub fn on_key(&mut self, key: Key) -> (r: KeyOutcome)
        requires
            old(self).wf(),
        ensures
            final(self).key_effect(*old(self), key, r),
    {
        match key {
            Key::Up | Key::Char('p') => {
                self.move_up();
                self.refresh();
                KeyOutcome::Handled
            },
            Key::Char('P') => {
                let mut i: usize = 0;
                while i < 10
                    invariant
                        self.wf(),
                        i <= 10,
                        self.core == old(self).core,
                        self.content == old(self).content,
                        self.lines == old(self).lines,
                        old(self).in_window() ==> self.in_window(),
                        self.selection == if old(self).selection >= i {
                            old(self).selection - i
                        } else {
                            0
                        },
                    decreases 10 - i,
                {
                    self.move_up();
                    i = i + 1;
                }
                self.refresh();
                KeyOutcome::Handled
            },
            Key::Char('N') => {
                let mut i: usize = 0;
                while i < 10
                    invariant
                        self.wf(),
                        i <= 10,
                        self.core == old(self).core,
                        self.content == old(self).content,
                        self.lines == old(self).lines,
                        old(self).in_window() ==> self.in_window(),
                        self.lines == old(self).lines,
                        old(self).lines > 0 ==> self.selection == min_nat(
                            (old(self).selection + i) as nat,
                            (old(self).lines - 1) as nat,
                        ),
                    decreases 10 - i,
                {
                    self.move_down();
                    i = i + 1;
                }
                self.refresh();
                KeyOutcome::Handled
            },
            Key::Down | Key::Char('n') => {
                self.move_down();
                self.refresh();
                KeyOutcome::Handled
            },
            Key::Ctrl('s') => KeyOutcome::PromptFind,
            Key::Char('F') => KeyOutcome::PromptFilter,
            Key::Left => match self.goto_grand_parent() {
                Some(p) => KeyOutcome::Open(p),
                None => KeyOutcome::Handled,
            },
            Key::Right => match self.goto_selected() {
                Some(p) => KeyOutcome::Open(p),
                None => KeyOutcome::Handled,
            },
            Key::Char(' ') => {
                self.multi_select_file();
                KeyOutcome::Handled
            },
            Key::Char('t') => {
                self.toggle_tag();
                KeyOutcome::Handled
            },
            Key::Char('h') => {
                self.toggle_hidden();
                KeyOutcome::Handled
            },
            Key::Char('r') => {
                self.reverse_sort();
                KeyOutcome::Handled
            },
            Key::Char('s') => {
                self.cycle_sort();
                KeyOutcome::Handled
            },
            Key::Char('K') => {
                self.select_next_mtime();
                KeyOutcome::Handled
            },
            Key::Char('k') => {
                self.select_prev_mtime();
                KeyOutcome::Handled
            },
            Key::Char('d') => {
                self.toggle_dirs_first();
                KeyOutcome::Handled
            },
            _ => KeyOutcome::Unhandled,
        }
    }
}

/// What a list view offers to the widget around it: the number of entries,
/// their lines, a header and a footer, a hook run on each refresh and the key
/// handler.
pub trait Listable {
    spec fn listable_wf(&self) -> bool;

    fn len(&self) -> usize;

    fn render(&self) -> Vec<String>
        requires
            self.listable_wf(),
    ;

    fn render_header(&self) -> String;

    fn render_footer(&self) -> String;

    fn on_refresh(&mut self);

    fn on_key(&mut self, key: Key) -> (r: KeyOutcome)
        requires
            old(self).listable_wf(),
        ensures
            final(self).listable_wf(),
    ;
}

impl Listable for ListView {
    open spec fn listable_wf(&self) -> bool {
        self.wf()
    }

    fn len(&self) -> (r: usize)
        ensures
            r == self.content.spec_len(),
    {
        self.content.len()
    }

    fn render(&self) -> (r: Vec<String>)
        ensures
            views(r@) == self.rendered(),
    {
        ListView::render(self)
    }

    fn render_header(&self) -> (r: String)
        ensures
            r@ == Seq::<char>::empty(),
    {
        String::new()
    }

    fn render_footer(&self) -> (r: String)
        ensures
            r@ == Seq::<char>::empty(),
    {
        String::new()
    }

    /// Marks the view stale where the listing changed.
    fn on_refresh(&mut self)
        ensures
            final(self).content == (Files { dirty: false, ..old(self).content }),
            final(self).core == (WidgetCore {
                dirty: old(self).core.dirty || old(self).content.dirty,
                ..old(self).core
            }),
            final(self).selection == old(self).selection,
            final(self).offset == old(self).offset,
            final(self).lines == old(self).lines,
            final(self).buffer == old(self).buffer,
            final(self).seeking == old(self).seeking,
    {
        if self.content.dirty {
            self.core.dirty = true;
            self.content.dirty = false;
        }
    }

    fn on_key(&mut self, key: Key) -> (r: KeyOutcome)
        ensures
            final(self).key_effect(*old(self), key, r),
    {
        ListView::on_key(self, key)
    }
}

} // verus!
