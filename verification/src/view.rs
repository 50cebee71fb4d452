//! What the screen shows: the text of each row and the tone it is drawn in.
//! The terminal drawing itself maps these onto widgets and colours.

use vstd::prelude::*;
use crate::app::{count_status, lookup_path, App, DisplayMode, FocusArea, Rect};
use crate::git::{symbol_of, DiffLineType, FileEntry, GitStatus};
use unicode_width::UnicodeWidthStr;
use crate::manager::char_pos_of_byte;
use crate::text::{has_prefix, has_prefix_exec, lines_of, lines_spec, string_views, byte_len, byte_len_exec, chars_of, lemma_byte_len_step, push_char, string_of, utf8_width, utf8_width_exec};

verus! {

broadcast use vstd::std_specs::hash::group_hash_axioms;

/// A colour the screen uses, by role.
#[derive(Debug, Clone, Copy, PartialEq, Eq, Structural)]
pub enum Tone {
    Yellow,
    Green,
    Red,
    Gray,
    Magenta,
    /// Ignored entries: a dim grey.
    Dim,
    White,
    Blue,
    DarkGray,
    Cyan,
    /// No colour of its own (the terminal default).
    Reset,
    /// Gutter of a modified editor line.
    GutterBlue,
    /// Background of the selected tree row while the tree has the focus.
    SelectedFocused,
    /// Background of the selected tree row while the editor has the focus.
    SelectedBlurred,
    /// Background of the tree row under the pointer.
    Hover,
    /// Background of the editor line with the cursor.
    CursorLine,
    /// Background of an added editor line.
    AddedLine,
    /// Background of a modified or edited editor line.
    ChangedLine,
    /// Background of a preview line that the diff touches.
    PreviewChanged,
    Black,
}

// ---------------------------------------------------------------------------
// Text helpers
// ---------------------------------------------------------------------------

/// The decimal digit for `d` (0 to 9).
pub open spec fn digit_char(d: nat) -> char {
    seq!['0', '1', '2', '3', '4', '5', '6', '7', '8', '9'][d as int]
}

/// `n` written in decimal, as `format!("{}", n)` writes it.
pub open spec fn decimal(n: nat) -> Seq<char>
    decreases n,
{
    if n < 10 {
        seq![digit_char(n)]
    } else {
        decimal(n / 10).push(digit_char(n % 10))
    }
}

/// `n` spaces.
pub open spec fn spaces(n: nat) -> Seq<char> {
    Seq::new(n, |i: int| ' ')
}

/// `s` padded with spaces on the right to `w` characters (`{:<w}`).
pub open spec fn pad_right(s: Seq<char>, w: nat) -> Seq<char> {
    if s.len() >= w {
        s
    } else {
        s + spaces((w - s.len()) as nat)
    }
}

/// `s` repeated `n` times.
pub open spec fn repeat_seq(s: Seq<char>, n: nat) -> Seq<char>
    decreases n,
{
    if n == 0 {
        Seq::<char>::empty()
    } else {
        repeat_seq(s, (n - 1) as nat) + s
    }
}

/// Index of the last `/` or `\` in `p` below `n`.
pub open spec fn last_separator_below(p: Seq<char>, n: int) -> Option<int>
    decreases n,
{
    if n <= 0 {
        None
    } else if p[n - 1] == '/' || p[n - 1] == '\\' {
        Some(n - 1)
    } else {
        last_separator_below(p, n - 1)
    }
}

/// The last component of a path: what follows its last `/` or `\`.
pub open spec fn last_component(p: Seq<char>) -> Seq<char> {
    match last_separator_below(p, p.len() as int) {
        Some(k) => p.skip(k + 1),
        None => p,
    }
}

proof fn lemma_last_separator(p: Seq<char>, n: int)
    requires
        n <= p.len(),
    ensures
        last_separator_below(p, n) matches Some(k) ==> 0 <= k < n,
    decreases n,
{
    if n > 0 && !(p[n - 1] == '/' || p[n - 1] == '\\') {
        lemma_last_separator(p, n - 1);
    }
}

fn digit_text(d: usize) -> (c: char)
    requires
        d < 10,
    ensures
        c == digit_char(d as nat),
{
    let digits: [char; 10] = ['0', '1', '2', '3', '4', '5', '6', '7', '8', '9'];
    proof {
        assert(digits@ =~= seq!['0', '1', '2', '3', '4', '5', '6', '7', '8', '9']);
    }
    digits[d]
}

/// Appends `n` in decimal.
pub fn push_decimal(out: &mut String, n: usize)
    ensures
        final(out)@ == old(out)@ + decimal(n as nat),
    decreases n,
{
    if n < 10 {
        push_char(out, digit_text(n));
    } else {
        push_decimal(out, n / 10);
        push_char(out, digit_text(n % 10));
        proof {
            assert(decimal(n as nat) == decimal((n / 10) as nat).push(digit_char((n % 10) as nat)));
        }
    }
}

/// Appends `n` copies of the character `c`.
fn push_repeated(out: &mut String, c: char, n: usize)
    ensures
        final(out)@ == old(out)@ + Seq::new(n as nat, |i: int| c),
{
    let ghost start = out@;
    let mut k: usize = 0;
    while k < n
        invariant
            k <= n,
            out@ == start + Seq::new(k as nat, |i: int| c),
        decreases n - k,
    {
        push_char(out, c);
        k += 1;
        proof {
            assert(out@ =~= start + Seq::new(k as nat, |i: int| c));
        }
    }
}

/// Appends `s`, padded with spaces to `w` characters.
fn push_padded(out: &mut String, s: &str, w: usize)
    ensures
        final(out)@ == old(out)@ + pad_right(s@, w as nat),
{
    let ghost start = out@;
    out.append(s);
    let n = s.unicode_len();
    if n < w {
        push_repeated(out, ' ', w - n);
        proof {
            assert(Seq::new((w - n) as nat, |i: int| ' ') =~= spaces((w - s@.len()) as nat));
            assert(out@ =~= start + pad_right(s@, w as nat));
        }
    }
}

/// Appends `s` `n` times.
fn push_repeated_str(out: &mut String, s: &str, n: usize)
    ensures
        final(out)@ == old(out)@ + repeat_seq(s@, n as nat),
{
    let ghost start = out@;
    let mut k: usize = 0;
    while k < n
        invariant
            k <= n,
            out@ == start + repeat_seq(s@, k as nat),
        decreases n - k,
    {
        out.append(s);
        k += 1;
        proof {
            assert(out@ =~= start + repeat_seq(s@, k as nat));
        }
    }
}

/// The last component of a path (see `last_component`).
fn last_component_exec(p: &str) -> (r: String)
    ensures
        r@ == last_component(p@),
{
    let cs = crate::text::chars_of(p);
    let mut n = cs.len();
    while n > 0 && !(cs[n - 1] == '/' || cs[n - 1] == '\\')
        invariant
            n <= cs@.len(),
            cs@ == p@,
            last_separator_below(p@, p@.len() as int) == last_separator_below(p@, n as int),
        decreases n,
    {
        n -= 1;
    }
    proof {
        lemma_last_separator(p@, n as int);
    }
    if n == 0 {
        proof {
            assert(cs@.subrange(0, cs@.len() as int) =~= p@);
        }
        crate::text::string_of(cs.as_slice(), 0, cs.len())
    } else {
        proof {
            assert(cs@.subrange(n as int, cs@.len() as int) =~= p@.skip(n as int));
        }
        crate::text::string_of(cs.as_slice(), n, cs.len())
    }
}

// ---------------------------------------------------------------------------
// Header
// ---------------------------------------------------------------------------

/// The title line: whether the directory is a git work tree, and the directory.
pub open spec fn header_spec(a: App) -> Seq<char> {
    " "@ + (if a.git_manager.is_repo() {
        "⎇ Git"@
    } else {
        "📁 文件"@
    }) + " - "@ + a.working_dir@
}

// ---------------------------------------------------------------------------
// Tree rows
// ---------------------------------------------------------------------------

/// The tone a status is drawn in.
pub open spec fn status_tone(s: GitStatus) -> Tone {
    match s {
        GitStatus::Modified => Tone::Yellow,
        GitStatus::Added => Tone::Green,
        GitStatus::Deleted => Tone::Red,
        GitStatus::Untracked => Tone::Gray,
        GitStatus::Renamed => Tone::Magenta,
        GitStatus::Ignored => Tone::Dim,
        _ => Tone::White,
    }
}

/// Status, kind and depth shown for a listed path (clean, a file at depth 0
/// when no entry has the path).
pub open spec fn row_entry(a: App, p: Seq<char>) -> (GitStatus, bool, usize) {
    match lookup_path(a.files@, p) {
        Some(f) => (f.status, f.is_dir, f.depth),
        None => (GitStatus::Clean, false, 0),
    }
}

/// The fold marker of a row: `▶` for a collapsed directory, `▼` for an open
/// one, blank for a file.
pub open spec fn fold_icon(a: App, p: Seq<char>, is_dir: bool) -> Seq<char> {
    if is_dir {
        if a.collapsed_set().contains(p) {
            "▶ "@
        } else {
            "▼ "@
        }
    } else {
        "  "@
    }
}

/// The text of the row for a listed path: indentation by depth, fold marker,
/// status symbol (two columns) and name (with `/` after a directory).
pub open spec fn tree_row_text(a: App, p: Seq<char>) -> Seq<char> {
    let (status, is_dir, depth) = row_entry(a, p);
    let name = if is_dir {
        last_component(p) + "/"@
    } else {
        last_component(p)
    };
    repeat_seq("  "@, depth as nat) + fold_icon(a, p, is_dir) + " "@ + pad_right(symbol_of(status), 2) + " "@
        + name
}

/// Rows of the tree pane inside its border.
pub open spec fn tree_inner_height(area: Rect) -> nat {
    if area.height >= 2 {
        (area.height - 2) as nat
    } else {
        0
    }
}

/// The listing indices the tree pane shows.
pub open spec fn tree_row_count(a: App, area: Rect) -> nat {
    let len = a.filtered().len();
    if a.scroll_offset >= len {
        0
    } else if len - a.scroll_offset < tree_inner_height(area) {
        (len - a.scroll_offset) as nat
    } else {
        tree_inner_height(area)
    }
}

/// The pointer is on the row that shows listing index `idx`.
pub open spec fn row_hovered(a: App, area: Rect, idx: int) -> bool {
    match (a.hover_row, a.hover_col) {
        (Some(r), Some(c)) => c >= area.x && c < area.x + area.width && r == area.y + 1 + (idx
            - a.scroll_offset),
        _ => false,
    }
}

/// The pointer test is made in the terminal's 16-bit coordinates: the pane's
/// right edge, and while the pointer is over the pane's columns every shown row's
/// offset from the scroll position (taken as `i16`) and its screen row (as
/// `u16`), stay in range.
pub open spec fn hover_fits(a: App, area: Rect) -> bool {
    match (a.hover_row, a.hover_col) {
        (Some(r), Some(c)) => {
            &&& c >= area.x ==> area.x + area.width <= u16::MAX
            &&& (c >= area.x && c < area.x + area.width) ==> forall|k: int|
                0 <= k < tree_row_count(a, area) ==> #[trigger] hover_row_fits(a, area, k)
        },
        _ => true,
    }
}

/// The row test for the `k`-th shown row stays within `i16` and `u16`.
pub open spec fn hover_row_fits(a: App, area: Rect, k: int) -> bool {
    let idx = a.scroll_offset + k;
    &&& -32768 <= ((idx as i16) as int) - ((a.scroll_offset as i16) as int) <= 32767
    &&& area.y + 1 + k <= u16::MAX
}

/// One row of the tree pane.
pub struct TreeRow {
    pub text: String,
    /// Foreground, by the entry's status.
    pub tone: Tone,
    /// Background: selection or hover, `Reset` for none.
    pub background: Tone,
    pub bold: bool,
}

/// The row for listing index `idx`, as (text, tone, background, bold).
pub open spec fn tree_row_spec(a: App, area: Rect, idx: int) -> (Seq<char>, Tone, Tone, bool) {
    let p = a.filtered()[idx];
    let (status, is_dir, depth) = row_entry(a, p);
    let selected = idx == a.selected;
    let background = if selected {
        if a.focus == FocusArea::Tree {
            Tone::SelectedFocused
        } else {
            Tone::SelectedBlurred
        }
    } else if row_hovered(a, area, idx) {
        Tone::Hover
    } else {
        Tone::Reset
    };
    (tree_row_text(a, p), status_tone(status), background, selected && a.focus == FocusArea::Tree)
}

pub open spec fn tree_row_view(r: TreeRow) -> (Seq<char>, Tone, Tone, bool) {
    (r.text@, r.tone, r.background, r.bold)
}

fn status_tone_exec(s: GitStatus) -> (t: Tone)
    ensures
        t == status_tone(s),
{
    match s {
        GitStatus::Modified => Tone::Yellow,
        GitStatus::Added => Tone::Green,
        GitStatus::Deleted => Tone::Red,
        GitStatus::Untracked => Tone::Gray,
        GitStatus::Renamed => Tone::Magenta,
        GitStatus::Ignored => Tone::Dim,
        _ => Tone::White,
    }
}

/// The title of the tree pane: the working directory in capitals.
pub open spec fn tree_title_spec(a: App) -> Seq<char> {
    " EXPLORER: "@ + crate::text::uppercase(a.working_dir@) + " "@
}

/// The border of the tree pane: blue while it has the focus, dark grey otherwise.
pub open spec fn tree_border_spec(a: App) -> Tone {
    if a.focus == FocusArea::Tree {
        Tone::Blue
    } else {
        Tone::DarkGray
    }
}

impl App {
    /// The title of the tree pane.
    pub fn tree_title(&self) -> (r: String)
        ensures
            r@ == tree_title_spec(*self),
    {
        let mut out = " EXPLORER: ".to_owned();
        let up = crate::text::to_uppercase(self.working_dir.as_str());
        out.append(up.as_str());
        out.append(" ");
        out
    }

    /// The border tone of the tree pane.
    pub fn tree_border(&self) -> (t: Tone)
        ensures
            t == tree_border_spec(*self),
    {
        match self.focus {
            FocusArea::Tree => Tone::Blue,
            FocusArea::Editor => Tone::DarkGray,
        }
    }

    /// The title line of the screen.
    pub fn header_text(&self) -> (r: String)
        ensures
            r@ == header_spec(*self),
    {
        let mut out = " ".to_owned();
        if self.git_manager.is_git_repo() {
            out.append("⎇ Git");
        } else {
            out.append("📁 文件");
        }
        out.append(" - ");
        out.append(self.working_dir.as_str());
        out
    }

    /// The text of the row for a listed path (see `tree_row_text`).
    fn tree_row_text_exec(&self, p: &str) -> (r: String)
        ensures
            r@ == tree_row_text(*self, p@),
    {
        let info = match self.get_file_by_path(p) {
            Some(f) => (f.status, f.is_dir, f.depth),
            None => (GitStatus::Clean, false, 0),
        };
        let (status, is_dir, depth) = info;
        let mut out = String::new();
        push_repeated_str(&mut out, "  ", depth);
        if is_dir {
            if self.is_collapsed(p) {
                out.append("▶ ");
            } else {
                out.append("▼ ");
            }
        } else {
            out.append("  ");
        }
        out.append(" ");
        push_padded(&mut out, status.symbol(), 2);
        out.append(" ");
        let name = last_component_exec(p);
        out.append(name.as_str());
        if is_dir {
            out.append("/");
        }
        proof {
            assert(out@ =~= tree_row_text(*self, p@));
        }
        out
    }

    /// The rows of the tree pane for a pane at `area` (border included): the
    /// listed paths from the scroll offset on, as many as fit inside the border.
    pub fn tree_rows(&self, area: Rect) -> (r: Vec<TreeRow>)
        requires
            hover_fits(*self, area),
        ensures
            r@.len() == tree_row_count(*self, area),
            forall|k: int|
                0 <= k < r@.len() ==> tree_row_view(#[trigger] r@[k]) == tree_row_spec(
                    *self,
                    area,
                    self.scroll_offset + k,
                ),
    {
        let inner: usize = if area.height >= 2 {
            (area.height - 2) as usize
        } else {
            0
        };
        let len = self.cached_filtered.len();
        let count: usize = if self.scroll_offset >= len {
            0
        } else if len - self.scroll_offset < inner {
            len - self.scroll_offset
        } else {
            inner
        };
        let mut rows: Vec<TreeRow> = Vec::new();
        let mut k: usize = 0;
        while k < count
            invariant
                k <= count,
                count == tree_row_count(*self, area),
                count <= len - self.scroll_offset || count == 0,
                len == self.filtered().len(),
                rows@.len() == k,
                forall|j: int|
                    0 <= j < k ==> tree_row_view(#[trigger] rows@[j]) == tree_row_spec(
                        *self,
                        area,
                        self.scroll_offset + j,
                    ),
            decreases count - k,
        {
            let idx = self.scroll_offset + k;
            let p = self.cached_filtered[idx].as_str();
            let text = self.tree_row_text_exec(p);
            let (status, _is_dir) = match self.get_file_by_path(p) {
                Some(f) => (f.status, f.is_dir),
                None => (GitStatus::Clean, false),
            };
            let selected = idx == self.selected;
            let hovered = match (self.hover_row, self.hover_col) {
                (Some(r), Some(c)) => c >= area.x && (c as u32) < (area.x as u32) + (area.width as u32)
                    && (r as usize) == (area.y as usize) + 1 + k,
                _ => false,
            };
            let background = if selected {
                match self.focus {
                    FocusArea::Tree => Tone::SelectedFocused,
                    FocusArea::Editor => Tone::SelectedBlurred,
                }
            } else if hovered {
                Tone::Hover
            } else {
                Tone::Reset
            };
            let bold = selected && self.focus == FocusArea::Tree;
            let row = TreeRow { text, tone: status_tone_exec(status), background, bold };
            proof {
                assert(self.filtered()[idx as int] == self.cached_filtered@[idx as int]@);
                assert(tree_row_view(row) == tree_row_spec(*self, area, idx as int));
            }
            rows.push(row);
            k += 1;
        }
        rows
    }
}

// ---------------------------------------------------------------------------
// Status bar
// ---------------------------------------------------------------------------

/// The label of a display mode.
pub open spec fn mode_label(m: DisplayMode) -> Seq<char> {
    match m {
        DisplayMode::All => "全部"@,
        DisplayMode::Changed => "变更"@,
        DisplayMode::TrackedOnly => "已跟踪"@,
    }
}

/// The counts part of the status bar.
pub open spec fn stats_text_spec(a: App) -> Seq<char> {
    let fs = a.files@;
    " M:"@ + decimal(count_status(fs, GitStatus::Modified)) + " A:"@ + decimal(
        count_status(fs, GitStatus::Added),
    ) + " D:"@ + decimal(count_status(fs, GitStatus::Deleted)) + " U:"@ + decimal(
        count_status(fs, GitStatus::Untracked),
    ) + " | 模式："@ + mode_label(a.display_mode) + " | 刷新："@ + decimal(a.refresh_interval as nat)
        + "s "@
}

/// The key hints of the status bar, by focus.
pub open spec fn shortcuts_spec(f: FocusArea) -> Seq<char> {
    match f {
        FocusArea::Tree => "Tab 切换 | Enter 编辑 | q 退出 | ? 帮助"@,
        FocusArea::Editor => "Ctrl+S 保存 | Esc 返回 | q 保存返回"@,
    }
}

/// The selected entry in the status bar: its name with a folder or file mark.
pub open spec fn file_info_spec(a: App) -> Seq<char> {
    match a.entry_at(a.selected as int) {
        Some(f) => if f.is_dir {
            "📁 "@ + last_component(f.path@) + "/"@
        } else {
            "📄 "@ + last_component(f.path@)
        },
        None => "无文件"@,
    }
}

/// `a - b`, or 0 when `b` is larger.
pub open spec fn sat_sub_nat(a: int, b: int) -> nat {
    if a >= b {
        (a - b) as nat
    } else {
        0
    }
}

/// Bytes left for the selected entry in a bar `width` columns wide.
pub open spec fn file_room(a: App, width: u16) -> nat {
    sat_sub_nat(width as int, (byte_len(stats_text_spec(a)) + byte_len(shortcuts_spec(a.focus)) + 4) as int)
}

/// The entry text is cut (with `...`) only where a character starts.
pub open spec fn status_bar_fits(a: App, width: u16) -> bool {
    byte_len(file_info_spec(a)) > file_room(a, width) ==> char_pos_of_byte(
        file_info_spec(a),
        sat_sub_nat(file_room(a, width) as int, 3),
        0,
    ) is Some
}

/// The status bar: counts, the selected entry (cut to the room left, by bytes,
/// with `...`), and the key hints.
pub open spec fn status_bar_spec(a: App, width: u16) -> Seq<char> {
    let info = file_info_spec(a);
    let room = file_room(a, width);
    let shown = if byte_len(info) > room {
        info.take(char_pos_of_byte(info, sat_sub_nat(room as int, 3), 0).unwrap() as int) + "..."@
    } else {
        info
    };
    stats_text_spec(a) + " "@ + shown + " "@ + shortcuts_spec(a.focus)
}

/// Powers of ten.
pub open spec fn pow10(k: nat) -> nat
    decreases k,
{
    if k == 0 {
        1
    } else {
        10 * pow10((k - 1) as nat)
    }
}

proof fn lemma_digit_ascii(d: nat)
    requires
        d < 10,
    ensures
        utf8_width(digit_char(d)) == 1,
{
    let ds = seq!['0', '1', '2', '3', '4', '5', '6', '7', '8', '9'];
    assert(ds[d as int] == digit_char(d));
    if d == 0 {
        assert(ds[0] == '0');
    } else if d == 1 {
        assert(ds[1] == '1');
    } else if d == 2 {
        assert(ds[2] == '2');
    } else if d == 3 {
        assert(ds[3] == '3');
    } else if d == 4 {
        assert(ds[4] == '4');
    } else if d == 5 {
        assert(ds[5] == '5');
    } else if d == 6 {
        assert(ds[6] == '6');
    } else if d == 7 {
        assert(ds[7] == '7');
    } else if d == 8 {
        assert(ds[8] == '8');
    } else {
        assert(ds[9] == '9');
    }
}

proof fn lemma_decimal_len(n: nat, k: nat)
    requires
        k >= 1,
        n < pow10(k),
    ensures
        decimal(n).len() <= k,
        byte_len(decimal(n)) == decimal(n).len(),
    decreases n,
{
    if n >= 10 {
        assert(k >= 2) by {
            if k == 1 {
                assert(pow10(1) == 10 * pow10(0));
            }
        }
        assert(pow10(k) == 10 * pow10((k - 1) as nat));
        assert(n / 10 < pow10((k - 1) as nat)) by (nonlinear_arith)
            requires
                n < 10 * pow10((k - 1) as nat),
        ;
        lemma_decimal_len(n / 10, (k - 1) as nat);
        let d = decimal(n);
        assert(d == decimal(n / 10).push(digit_char(n % 10)));
        assert(d.drop_last() =~= decimal(n / 10));
        assert(d.last() == digit_char(n % 10));
        lemma_digit_ascii(n % 10);
        assert(byte_len(d) == byte_len(d.drop_last()) + utf8_width(d.last()));
    } else {
        let d = decimal(n);
        assert(d == seq![digit_char(n)]);
        assert(d.drop_last() =~= Seq::<char>::empty());
        assert(d.last() == digit_char(n));
        lemma_digit_ascii(n);
        assert(byte_len(d) == byte_len(d.drop_last()) + utf8_width(d.last()));
    }
}

proof fn lemma_byte_len_concat(a: Seq<char>, b: Seq<char>)
    ensures
        byte_len(a + b) == byte_len(a) + byte_len(b),
    decreases b.len(),
{
    if b.len() > 0 {
        lemma_byte_len_concat(a, b.drop_last());
        assert((a + b).drop_last() =~= a + b.drop_last());
    } else {
        assert(a + b =~= a);
    }
}

proof fn lemma_byte_len_bound(s: Seq<char>)
    ensures
        byte_len(s) <= 4 * s.len(),
    decreases s.len(),
{
    if s.len() > 0 {
        lemma_byte_len_bound(s.drop_last());
    }
}

proof fn lemma_usize_decimal(n: nat)
    requires
        n <= u64::MAX,
    ensures
        decimal(n).len() <= 20,
{
    reveal_with_fuel(pow10, 21);
    assert(pow10(20) == 100000000000000000000nat);
    lemma_decimal_len(n, 20);
}

/// Character index at which byte offset `b` falls (which must be a character
/// boundary).
fn char_index_at_byte(cs: &[char], b: usize) -> (k: usize)
    requires
        char_pos_of_byte(cs@, b as nat, 0) is Some,
    ensures
        char_pos_of_byte(cs@, b as nat, 0) == Some(k as nat),
        k <= cs@.len(),
{
    let mut k: usize = 0;
    let mut acc: usize = 0;
    while acc < b
        invariant
            k <= cs@.len(),
            acc == byte_len(cs@.take(k as int)),
            acc <= b,
            char_pos_of_byte(cs@, b as nat, 0) == char_pos_of_byte(cs@, b as nat, k as nat),
            char_pos_of_byte(cs@, b as nat, k as nat) is Some,
        decreases b - acc,
    {
        proof {
            lemma_byte_len_step(cs@, k as int);
            assert(k < cs@.len());
            assert(char_pos_of_byte(cs@, b as nat, (k + 1) as nat) is Some);
            if k + 1 <= cs@.len() {
                assert(byte_len(cs@.take(k + 1)) <= b);
            }
        }
        acc = acc + utf8_width_exec(cs[k]);
        k += 1;
    }
    k
}

impl App {
    /// The counts part of the status bar.
    fn stats_text(&self) -> (r: String)
        ensures
            r@ == stats_text_spec(*self),
    {
        let st = self.get_stats();
        let mut out = " M:".to_owned();
        push_decimal(&mut out, st.modified);
        out.append(" A:");
        push_decimal(&mut out, st.added);
        out.append(" D:");
        push_decimal(&mut out, st.deleted);
        out.append(" U:");
        push_decimal(&mut out, st.untracked);
        out.append(" | 模式：");
        match self.display_mode {
            DisplayMode::All => out.append("全部"),
            DisplayMode::Changed => out.append("变更"),
            DisplayMode::TrackedOnly => out.append("已跟踪"),
        }
        out.append(" | 刷新：");
        let ghost before = out@;
        let mut interval = String::new();
        proof {
            assert(self.refresh_interval <= u64::MAX);
        }
        push_decimal_u64(&mut interval, self.refresh_interval);
        out.append(interval.as_str());
        out.append("s ");
        proof {
            assert(out@ =~= stats_text_spec(*self));
        }
        out
    }

    /// The selected entry as the status bar names it.
    fn file_info(&self) -> (r: String)
        ensures
            r@ == file_info_spec(*self),
    {
        match self.selected_file() {
            Some(f) => {
                let name = last_component_exec(f.path.as_str());
                let mut out = if f.is_dir {
                    "📁 ".to_owned()
                } else {
                    "📄 ".to_owned()
                };
                out.append(name.as_str());
                if f.is_dir {
                    out.append("/");
                }
                out
            },
            None => "无文件".to_owned(),
        }
    }

    /// The status bar for a bar `width` columns wide.
    pub fn status_bar_text(&self, width: u16) -> (r: String)
        requires
            status_bar_fits(*self, width),
        ensures
            r@ == status_bar_spec(*self, width),
    {
        let stats = self.stats_text();
        let shortcuts = match self.focus {
            FocusArea::Tree => "Tab 切换 | Enter 编辑 | q 退出 | ? 帮助",
            FocusArea::Editor => "Ctrl+S 保存 | Esc 返回 | q 保存返回",
        };
        let sc = chars_of(stats.as_str());
        let hc = chars_of(shortcuts);
        proof {
            let fs = self.files@;
            lemma_count_le(fs, GitStatus::Modified);
            lemma_count_le(fs, GitStatus::Added);
            lemma_count_le(fs, GitStatus::Deleted);
            lemma_count_le(fs, GitStatus::Untracked);
            assert(self.files.len() == fs.len());
            lemma_usize_decimal(count_status(fs, GitStatus::Modified));
            lemma_usize_decimal(count_status(fs, GitStatus::Added));
            lemma_usize_decimal(count_status(fs, GitStatus::Deleted));
            lemma_usize_decimal(count_status(fs, GitStatus::Untracked));
            lemma_usize_decimal(self.refresh_interval as nat);
            reveal_strlit(" M:");
            reveal_strlit(" A:");
            reveal_strlit(" D:");
            reveal_strlit(" U:");
            reveal_strlit(" | 模式：");
            reveal_strlit("全部");
            reveal_strlit("变更");
            reveal_strlit("已跟踪");
            reveal_strlit(" | 刷新：");
            reveal_strlit("s ");
            reveal_strlit("Tab 切换 | Enter 编辑 | q 退出 | ? 帮助");
            reveal_strlit("Ctrl+S 保存 | Esc 返回 | q 保存返回");
            assert(sc@.len() <= 200);
            assert(hc@.len() <= 60);
            lemma_byte_len_bound(sc@);
            lemma_byte_len_bound(hc@);
        }
        let sw = byte_len_exec(sc.as_slice());
        let hw = byte_len_exec(hc.as_slice());
        let room: usize = if (width as usize) >= sw + hw + 4 {
            (width as usize) - (sw + hw + 4)
        } else {
            0
        };
        let info = self.file_info();
        let ic = chars_of(info.as_str());
        proof {
            lemma_byte_len_bound(ic@);
        }
        let shown = if byte_len_exec_capped(ic.as_slice(), room) <= room {
            info
        } else {
            let cut: usize = if room >= 3 {
                room - 3
            } else {
                0
            };
            let k = char_index_at_byte(ic.as_slice(), cut);
            let mut out = string_of(ic.as_slice(), 0, k);
            out.append("...");
            proof {
                assert(ic@.subrange(0, k as int) =~= ic@.take(k as int));
            }
            out
        };
        let mut line = stats;
        line.append(" ");
        line.append(shown.as_str());
        line.append(" ");
        line.append(shortcuts);
        line
    }
}

/// Whether byte offset `b` of the text falls where a character starts.
fn char_boundary_at(cs: &[char], b: usize) -> (r: bool)
    requires
        b <= usize::MAX - 4,
    ensures
        r == (char_pos_of_byte(cs@, b as nat, 0) is Some),
{
    let mut k: usize = 0;
    let mut acc: usize = 0;
    loop
        invariant
            k <= cs@.len(),
            acc == byte_len(cs@.take(k as int)),
            acc <= b,
            b <= usize::MAX - 4,
            char_pos_of_byte(cs@, b as nat, 0) == char_pos_of_byte(cs@, b as nat, k as nat),
        decreases cs@.len() - k,
    {
        if acc == b {
            return true;
        }
        if k == cs.len() {
            return false;
        }
        proof {
            lemma_byte_len_step(cs@, k as int);
        }
        acc = acc + utf8_width_exec(cs[k]);
        k += 1;
        if acc > b {
            return false;
        }
    }
}

impl App {
    /// Whether `status_bar_text` can be made for a bar `width` columns wide
    /// (see `status_bar_fits`).
    pub fn status_bar_fits_exec(&self, width: u16) -> (r: bool)
        ensures
            r == status_bar_fits(*self, width),
    {
        let stats = self.stats_text();
        let shortcuts = match self.focus {
            FocusArea::Tree => "Tab 切换 | Enter 编辑 | q 退出 | ? 帮助",
            FocusArea::Editor => "Ctrl+S 保存 | Esc 返回 | q 保存返回",
        };
        let sc = chars_of(stats.as_str());
        let hc = chars_of(shortcuts);
        proof {
            let fs = self.files@;
            lemma_count_le(fs, GitStatus::Modified);
            lemma_count_le(fs, GitStatus::Added);
            lemma_count_le(fs, GitStatus::Deleted);
            lemma_count_le(fs, GitStatus::Untracked);
            assert(self.files.len() == fs.len());
            lemma_usize_decimal(count_status(fs, GitStatus::Modified));
            lemma_usize_decimal(count_status(fs, GitStatus::Added));
            lemma_usize_decimal(count_status(fs, GitStatus::Deleted));
            lemma_usize_decimal(count_status(fs, GitStatus::Untracked));
            lemma_usize_decimal(self.refresh_interval as nat);
            reveal_strlit(" M:");
            reveal_strlit(" A:");
            reveal_strlit(" D:");
            reveal_strlit(" U:");
            reveal_strlit(" | 模式：");
            reveal_strlit("全部");
            reveal_strlit("变更");
            reveal_strlit("已跟踪");
            reveal_strlit(" | 刷新：");
            reveal_strlit("s ");
            reveal_strlit("Tab 切换 | Enter 编辑 | q 退出 | ? 帮助");
            reveal_strlit("Ctrl+S 保存 | Esc 返回 | q 保存返回");
            lemma_byte_len_bound(sc@);
            lemma_byte_len_bound(hc@);
        }
        let sw = byte_len_exec(sc.as_slice());
        let hw = byte_len_exec(hc.as_slice());
        let room: usize = if (width as usize) >= sw + hw + 4 {
            (width as usize) - (sw + hw + 4)
        } else {
            0
        };
        let info = self.file_info();
        let ic = chars_of(info.as_str());
        if byte_len_exec_capped(ic.as_slice(), room) <= room {
            true
        } else {
            let cut: usize = if room >= 3 {
                room - 3
            } else {
                0
            };
            char_boundary_at(ic.as_slice(), cut)
        }
    }
}

/// Appends `n` in decimal.
fn push_decimal_u64(out: &mut String, n: u64)
    ensures
        final(out)@ == old(out)@ + decimal(n as nat),
    decreases n,
{
    if n < 10 {
        push_char(out, digit_text(n as usize));
    } else {
        push_decimal_u64(out, n / 10);
        push_char(out, digit_text((n % 10) as usize));
        proof {
            assert(decimal(n as nat) == decimal((n / 10) as nat).push(digit_char((n % 10) as nat)));
        }
    }
}

/// `min(byte_len(cs), cap + 1)`: whether the text fits in `cap` bytes, without
/// counting past the cap.
fn byte_len_exec_capped(cs: &[char], cap: usize) -> (n: usize)
    requires
        cap <= usize::MAX - 4,
    ensures
        n <= cap ==> n == byte_len(cs@),
        n > cap ==> byte_len(cs@) > cap,
{
    let mut n: usize = 0;
    let mut k: usize = 0;
    while k < cs.len() && n <= cap
        invariant
            k <= cs@.len(),
            n == byte_len(cs@.take(k as int)),
            cap <= usize::MAX - 4,
            n <= cap + 4,
        decreases cs@.len() - k,
    {
        proof {
            lemma_byte_len_step(cs@, k as int);
        }
        n = n + utf8_width_exec(cs[k]);
        k += 1;
    }
    proof {
        crate::text::lemma_byte_len_mono(cs@, k as int);
        if k == cs@.len() {
            assert(cs@.take(k as int) =~= cs@);
        }
    }
    n
}

proof fn lemma_count_le(fs: Seq<FileEntry>, s: GitStatus)
    ensures
        count_status(fs, s) <= fs.len(),
    decreases fs.len(),
{
    if fs.len() > 0 {
        lemma_count_le(fs.drop_last(), s);
    }
}

// ---------------------------------------------------------------------------
// Editor pane
// ---------------------------------------------------------------------------

/// What `UnicodeWidthStr::width` returns for a string: the columns it takes on
/// a terminal.
pub uninterp spec fn display_width(s: Seq<char>) -> usize;

/// `unicode_width::UnicodeWidthStr::width`: the display width of `s`, named by
/// `display_width`; the empty string takes no columns. The width tables are not
/// restated here.
#[verifier::external_body]
fn str_display_width(s: &str) -> (r: usize)
    ensures
        r == display_width(s@),
        s@.len() == 0 ==> r == 0,
{
    UnicodeWidthStr::width(s)
}

/// The title of the editor pane: the path, `*` when there are unsaved changes,
/// and while the editor has the focus a hint to save them.
pub open spec fn editor_title_spec(a: App) -> Seq<char> {
    let flag = if a.editor_modified {
        " *"@
    } else {
        ""@
    };
    if a.focus == FocusArea::Editor {
        " 编辑器："@ + a.editor_path@ + flag + (if a.editor_modified {
            " (Ctrl+S 保存)"@
        } else {
            ""@
        }) + " "@
    } else {
        " 编辑器："@ + a.editor_path@ + flag + " "@
    }
}

/// The border of the editor pane: red with unsaved changes and yellow without
/// while it has the focus, green otherwise.
pub open spec fn editor_border_spec(a: App) -> Tone {
    if a.focus == FocusArea::Editor {
        if a.editor_modified {
            Tone::Red
        } else {
            Tone::Yellow
        }
    } else {
        Tone::Green
    }
}

/// The first line the editor pane shows: the editor's scroll, moved up so that
/// the pane does not run past the last line.
pub open spec fn editor_view_top(a: App, inner: nat) -> nat {
    let len = a.editor_content@.len();
    if a.editor_scroll + inner > len {
        sat_sub_nat(len as int, inner as int)
    } else {
        a.editor_scroll as nat
    }
}

/// Number of lines the editor pane shows.
pub open spec fn editor_row_count(a: App, inner: nat) -> nat {
    let len = a.editor_content@.len();
    let top = editor_view_top(a, inner);
    if top >= len {
        0
    } else if len - top < inner {
        (len - top) as nat
    } else {
        inner
    }
}

/// The line was edited: it differs from the line at the same index of the file
/// as loaded (or that line does not exist).
pub open spec fn line_edited(a: App, i: int) -> bool {
    !(i < a.editor_original_content@.len() && a.editor_original_content@[i]@ == a.lines_view()[i])
}

/// One line of the editor pane.
pub struct EditorRow {
    pub gutter: String,
    pub gutter_tone: Tone,
    /// The line number, left-aligned in four columns, and a space.
    pub number: String,
    pub number_tone: Tone,
    pub text: String,
    pub text_tone: Tone,
    pub background: Tone,
}

pub open spec fn editor_row_view(r: EditorRow) -> (Seq<char>, Tone, Seq<char>, Tone, Seq<char>, Tone, Tone) {
    (r.gutter@, r.gutter_tone, r.number@, r.number_tone, r.text@, r.text_tone, r.background)
}

/// The gutter mark of a line: the diff's kind, else a bar for an edited line.
pub open spec fn gutter_spec(diff: Option<DiffLineType>, edited: bool) -> (Seq<char>, Tone) {
    match diff {
        Some(DiffLineType::Added) => ("┃"@, Tone::Green),
        Some(DiffLineType::Modified) => ("┃"@, Tone::GutterBlue),
        Some(DiffLineType::Deleted) => ("▸"@, Tone::Red),
        None => if edited {
            ("┃"@, Tone::Yellow)
        } else {
            (" "@, Tone::DarkGray)
        },
    }
}

/// The row for line index `i` (numbered from 1 on screen).
pub open spec fn editor_row_spec(a: App, i: int) -> (Seq<char>, Tone, Seq<char>, Tone, Seq<char>, Tone, Tone) {
    let num = i + 1;
    let diff = if a.editor_diff_lines@.contains_key(num as usize) {
        Some(a.editor_diff_lines@[num as usize])
    } else {
        None
    };
    let edited = line_edited(a, i);
    let cursor_here = i == a.editor_cursor.0 && a.focus == FocusArea::Editor;
    let (g, gt) = gutter_spec(diff, edited);
    let number_tone = if diff is Some || edited {
        gt
    } else if cursor_here {
        Tone::White
    } else {
        Tone::DarkGray
    };
    let line = a.lines_view()[i];
    let text_tone = if cursor_here {
        Tone::White
    } else if line.len() == 0 {
        Tone::DarkGray
    } else {
        Tone::Gray
    };
    let background = if cursor_here {
        Tone::CursorLine
    } else if diff == Some(DiffLineType::Added) {
        Tone::AddedLine
    } else if diff == Some(DiffLineType::Modified) || edited {
        Tone::ChangedLine
    } else {
        Tone::Reset
    };
    (g, gt, pad_right(decimal(num as nat), 4) + " "@, number_tone, line, text_tone, background)
}

/// The cursor's cell in a pane at `area` whose first shown line is `top`, when
/// the text before the cursor is `width` columns wide.
pub open spec fn cursor_cell_spec(a: App, area: Rect, top: nat, width: usize) -> (u16, u16) {
    ((area.x + 7 + (width as u16)) as u16, (area.y + 1 + ((a.editor_cursor.0 - top) as usize as u16)) as u16)
}

/// The cursor's cell arithmetic stays within `usize` and `u16`.
pub open spec fn cursor_cell_fits(a: App, area: Rect, top: nat, width: usize) -> bool {
    &&& area.x + 7 + (width as u16) <= u16::MAX
    &&& a.editor_cursor.0 >= top
    &&& area.y + 1 + ((a.editor_cursor.0 - top) as usize as u16) <= u16::MAX
}

/// The text of the cursor line before the cursor (nothing when the cursor is
/// below the last line).
pub open spec fn cursor_prefix(a: App) -> Seq<char> {
    if a.editor_cursor.0 < a.editor_content@.len() {
        a.lines_view()[a.editor_cursor.0 as int].take(
            if a.editor_cursor.1 < a.lines_view()[a.editor_cursor.0 as int].len() {
                a.editor_cursor.1 as int
            } else {
                a.lines_view()[a.editor_cursor.0 as int].len() as int
            },
        )
    } else {
        Seq::<char>::empty()
    }
}

impl App {
    /// The title of the editor pane.
    pub fn editor_title(&self) -> (r: String)
        ensures
            r@ == editor_title_spec(*self),
    {
        let mut out = " 编辑器：".to_owned();
        out.append(self.editor_path.as_str());
        if self.editor_modified {
            out.append(" *");
        }
        if self.focus == FocusArea::Editor && self.editor_modified {
            out.append(" (Ctrl+S 保存)");
        }
        out.append(" ");
        proof {
            reveal_strlit("");
            assert(out@ =~= editor_title_spec(*self));
        }
        out
    }

    /// The border tone of the editor pane.
    pub fn editor_border(&self) -> (t: Tone)
        ensures
            t == editor_border_spec(*self),
    {
        match self.focus {
            FocusArea::Editor => if self.editor_modified {
                Tone::Red
            } else {
                Tone::Yellow
            },
            FocusArea::Tree => Tone::Green,
        }
    }

    /// The first line the editor pane shows for `inner` rows.
    pub fn editor_view_top(&self, inner: usize) -> (top: usize)
        requires
            self.editor_scroll + inner <= usize::MAX,
        ensures
            top == editor_view_top(*self, inner as nat),
    {
        let len = self.editor_content.len();
        if self.editor_scroll + inner > len {
            if len >= inner {
                len - inner
            } else {
                0
            }
        } else {
            self.editor_scroll
        }
    }

    /// The lines the editor pane shows for `inner` rows inside its border.
    pub fn editor_rows(&self, inner: usize) -> (r: Vec<EditorRow>)
        requires
            self.editor_scroll + inner <= usize::MAX,
        ensures
            r@.len() == editor_row_count(*self, inner as nat),
            forall|k: int|
                0 <= k < r@.len() ==> editor_row_view(#[trigger] r@[k]) == editor_row_spec(
                    *self,
                    editor_view_top(*self, inner as nat) + k,
                ),
    {
        let top = self.editor_view_top(inner);
        let len = self.editor_content.len();
        let count: usize = if top >= len {
            0
        } else if len - top < inner {
            len - top
        } else {
            inner
        };
        let mut rows: Vec<EditorRow> = Vec::new();
        let mut k: usize = 0;
        while k < count
            invariant
                k <= count,
                count == editor_row_count(*self, inner as nat),
                top == editor_view_top(*self, inner as nat),
                len == self.editor_content@.len(),
                count == 0 || top + count <= len,
                rows@.len() == k,
                forall|j: int|
                    0 <= j < k ==> editor_row_view(#[trigger] rows@[j]) == editor_row_spec(*self, top + j),
            decreases count - k,
        {
            let i = top + k;
            let row = self.editor_row(i);
            rows.push(row);
            k += 1;
        }
        rows
    }

    /// The row for line index `i`.
    fn editor_row(&self, i: usize) -> (r: EditorRow)
        requires
            i < self.editor_content@.len(),
        ensures
            editor_row_view(r) == editor_row_spec(*self, i as int),
    {
        proof {
            assert(self.editor_content.len() == self.editor_content@.len());
        }
        let num = i + 1;
        let diff = match self.editor_diff_lines.get(&num) {
            Some(d) => Some(*d),
            None => None,
        };
        let line = self.editor_content[i].as_str();
        let edited = !(i < self.editor_original_content.len() && crate::text::str_eq(
            self.editor_original_content[i].as_str(),
            line,
        ));
        let cursor_here = i == self.editor_cursor.0 && self.focus == FocusArea::Editor;
        let (g, gt) = match diff {
            Some(DiffLineType::Added) => ("┃", Tone::Green),
            Some(DiffLineType::Modified) => ("┃", Tone::GutterBlue),
            Some(DiffLineType::Deleted) => ("▸", Tone::Red),
            None => if edited {
                ("┃", Tone::Yellow)
            } else {
                (" ", Tone::DarkGray)
            },
        };
        let number_tone = if diff.is_some() || edited {
            gt
        } else if cursor_here {
            Tone::White
        } else {
            Tone::DarkGray
        };
        let text_tone = if cursor_here {
            Tone::White
        } else if line.is_empty() {
            Tone::DarkGray
        } else {
            Tone::Gray
        };
        let is_added = match diff {
            Some(DiffLineType::Added) => true,
            _ => false,
        };
        let is_modified = match diff {
            Some(DiffLineType::Modified) => true,
            _ => false,
        };
        let background = if cursor_here {
            Tone::CursorLine
        } else if is_added {
            Tone::AddedLine
        } else if is_modified || edited {
            Tone::ChangedLine
        } else {
            Tone::Reset
        };
        let mut digits = String::new();
        push_decimal(&mut digits, num);
        let mut number = String::new();
        push_padded(&mut number, digits.as_str(), 4);
        number.append(" ");
        let r = EditorRow {
            gutter: g.to_owned(),
            gutter_tone: gt,
            number,
            number_tone,
            text: line.to_owned(),
            text_tone,
            background,
        };
        proof {
            assert(self.lines_view()[i as int] == self.editor_content@[i as int]@);
        }
        r
    }

    /// The text before the cursor on its line.
    fn cursor_prefix_exec(&self) -> (r: String)
        ensures
            r@ == cursor_prefix(*self),
    {
        let row = self.editor_cursor.0;
        if row < self.editor_content.len() {
            let cs = chars_of(self.editor_content[row].as_str());
            let n = if self.editor_cursor.1 < cs.len() {
                self.editor_cursor.1
            } else {
                cs.len()
            };
            proof {
                assert(cs@ == self.lines_view()[row as int]);
                assert(cs@.subrange(0, n as int) =~= cs@.take(n as int));
            }
            string_of(cs.as_slice(), 0, n)
        } else {
            String::new()
        }
    }

    /// The cursor's cell for a pane at `area` showing lines from `top`, given the
    /// display width of the text before the cursor.
    pub fn cursor_cell(&self, area: Rect, top: usize, width: usize) -> (r: (u16, u16))
        requires
            cursor_cell_fits(*self, area, top as nat, width),
        ensures
            r == cursor_cell_spec(*self, area, top as nat, width),
    {
        let w = width as u16;
        let d = (self.editor_cursor.0 - top) as u16;
        (area.x + 1 + 1 + 5 + w, area.y + 1 + d)
    }

    /// Where the terminal cursor goes for an editor pane at `area` with `inner`
    /// rows inside its border: nowhere unless the editor has the focus; `None`
    /// also when the cell would fall outside the `u16` range (or the cursor line
    /// lies above the shown lines).
    pub fn editor_cursor_position(&self, area: Rect, inner: usize) -> (r: Option<(u16, u16)>)
        requires
            self.editor_scroll + inner <= usize::MAX,
        ensures
            self.focus != FocusArea::Editor ==> r is None,
            self.focus == FocusArea::Editor ==> {
                let top = editor_view_top(*self, inner as nat);
                let w = display_width(cursor_prefix(*self));
                &&& r is Some <==> cursor_cell_fits(*self, area, top, w)
                &&& r is Some ==> r == Some(cursor_cell_spec(*self, area, top, w))
            },
    {
        if self.focus != FocusArea::Editor {
            return None;
        }
        let top = self.editor_view_top(inner);
        let prefix = self.cursor_prefix_exec();
        let width = str_display_width(prefix.as_str());
        let w = width as u16;
        if (area.x as u32) + 7 + (w as u32) > 65535 || self.editor_cursor.0 < top {
            return None;
        }
        let d = (self.editor_cursor.0 - top) as u16;
        if (area.y as u32) + 1 + (d as u32) > 65535 {
            return None;
        }
        Some(self.cursor_cell(area, top, width))
    }
}

// ---------------------------------------------------------------------------
// Preview pane
// ---------------------------------------------------------------------------

/// One line of the preview pane; `Reset` tones take the pane's own.
pub struct PreviewLine {
    pub text: String,
    pub tone: Tone,
    pub background: Tone,
}

/// The preview pane: its title (none for a bare message), border, base tones
/// and lines.
pub struct Preview {
    pub title: Option<String>,
    pub border: Tone,
    pub tone: Tone,
    pub background: Tone,
    pub lines: Vec<PreviewLine>,
}

pub open spec fn preview_line_view(l: PreviewLine) -> (Seq<char>, Tone, Tone) {
    (l.text@, l.tone, l.background)
}

pub open spec fn preview_lines_view(v: Seq<PreviewLine>) -> Seq<(Seq<char>, Tone, Tone)> {
    v.map_values(|l: PreviewLine| preview_line_view(l))
}

/// A line in the pane's own tones.
pub open spec fn plain(t: Seq<char>) -> (Seq<char>, Tone, Tone) {
    (t, Tone::Reset, Tone::Reset)
}

/// Number of files among the first `n` whose path starts with `p` and is not `p`.
pub open spec fn count_under(files: Seq<FileEntry>, p: Seq<char>, n: int) -> nat
    decreases n,
{
    if n <= 0 {
        0
    } else {
        count_under(files, p, n - 1) + if has_prefix(files[n - 1].path@, p) && files[n - 1].path@ != p {
            1nat
        } else {
            0nat
        }
    }
}

/// How the preview names a status.
pub open spec fn status_description(s: GitStatus) -> Seq<char> {
    match s {
        GitStatus::Modified => "已修改"@,
        GitStatus::Added => "新增"@,
        GitStatus::Deleted => "删除"@,
        GitStatus::Untracked => "未跟踪"@,
        GitStatus::Renamed => "重命名"@,
        GitStatus::Clean => "无变更"@,
        _ => "未知"@,
    }
}

/// The text shown when a file cannot be read.
pub open spec fn unreadable_text() -> Seq<char> {
    "无法读取文件（可能是二进制文件）"@
}

/// Lines of a file preview with `height` rows: header, status and size, a
/// blank line, then numbered lines of the file, those the diff touches
/// highlighted.
pub open spec fn file_preview_lines(f: FileEntry, text: Seq<char>, diff: Seq<i32>, height: u16) -> Seq<
    (Seq<char>, Tone, Tone),
> {
    let ls = lines_spec(text);
    let room = sat_sub_nat(height as int, 4);
    let shown = if ls.len() < room {
        ls.len()
    } else {
        room
    };
    seq![
        (" 📄 "@ + f.path@ + " "@, Tone::White, Tone::DarkGray),
        plain(" 状态："@ + status_description(f.status) + " | 大小："@ + decimal(ls.len()) + " 行"@),
        plain(""@),
    ] + Seq::new(
        shown,
        |i: int|
            if diff.contains((i + 1) as i32) {
                (pad_right(decimal((i + 1) as nat), 4) + " "@ + ls[i], Tone::Yellow, Tone::PreviewChanged)
            } else {
                (pad_right(decimal((i + 1) as nat), 4) + " "@ + ls[i], Tone::Gray, Tone::Reset)
            },
    )
}

/// The preview pane for the selected entry, in a pane `height` rows high, given
/// the file's text (`None` when it could not be read) and the new-side start
/// lines of its diff hunks.
pub open spec fn preview_spec(a: App, height: u16, content: Option<Seq<char>>, diff: Seq<i32>) -> (
    Option<Seq<char>>,
    Tone,
    Tone,
    Tone,
    Seq<(Seq<char>, Tone, Tone)>,
) {
    match a.entry_at(a.selected as int) {
        Some(f) => if f.is_dir {
            (
                Some(" 目录预览 "@),
                Tone::Cyan,
                Tone::Gray,
                Tone::Reset,
                seq![
                    plain(""@),
                    plain("  📁 "@ + f.path@),
                    plain(""@),
                    plain("  子项数量："@ + decimal(count_under(a.files@, f.path@, a.files@.len() as int))),
                    plain(""@),
                    plain("  按 Enter 展开目录"@),
                ],
            )
        } else {
            let text = match content {
                Some(t) => t,
                None => unreadable_text(),
            };
            (
                Some(" 预览："@ + f.path@ + " "@),
                Tone::Green,
                Tone::Reset,
                Tone::Black,
                file_preview_lines(f, text, diff, height),
            )
        },
        None => (
            None,
            Tone::Reset,
            Tone::Gray,
            Tone::Reset,
            seq![
                plain(""@),
                plain(""@),
                plain("  没有选中的文件"@),
                plain(""@),
                plain("  使用 ↑↓ 或鼠标选择文件"@),
                plain("  按 Enter 或 e 打开编辑器"@),
            ],
        ),
    }
}

pub open spec fn preview_view(p: Preview) -> (Option<Seq<char>>, Tone, Tone, Tone, Seq<(Seq<char>, Tone, Tone)>) {
    (
        match p.title {
            Some(t) => Some(t@),
            None => None,
        },
        p.border,
        p.tone,
        p.background,
        preview_lines_view(p.lines@),
    )
}

fn plain_line(t: &str) -> (l: PreviewLine)
    ensures
        preview_line_view(l) == plain(t@),
{
    PreviewLine { text: t.to_owned(), tone: Tone::Reset, background: Tone::Reset }
}

fn push_line(v: &mut Vec<PreviewLine>, l: PreviewLine)
    ensures
        preview_lines_view(final(v)@) == preview_lines_view(old(v)@).push(preview_line_view(l)),
{
    v.push(l);
    proof {
        assert(preview_lines_view(v@) =~= preview_lines_view(old(v)@).push(preview_line_view(l)));
    }
}

fn contains_i32(v: &Vec<i32>, x: i32) -> (r: bool)
    ensures
        r == v@.contains(x),
{
    let mut i: usize = 0;
    while i < v.len()
        invariant
            i <= v@.len(),
            forall|j: int| 0 <= j < i ==> v@[j] != x,
        decreases v@.len() - i,
    {
        if v[i] == x {
            proof {
                assert(v@[i as int] == x);
            }
            return true;
        }
        i += 1;
    }
    false
}

impl App {
    /// What the preview of the selected entry needs read: for a file (not a
    /// directory), its path and whether its diff is wanted (when it is modified).
    pub fn preview_source(&self) -> (r: Option<(String, bool)>)
        ensures
            match self.entry_at(self.selected as int) {
                Some(f) => if f.is_dir {
                    r is None
                } else {
                    r matches Some((p, d)) && p@ == f.path@ && d == (f.status == GitStatus::Modified)
                },
                None => r is None,
            },
    {
        match self.selected_file() {
            Some(f) => if f.is_dir {
                None
            } else {
                Some((f.path.clone(), f.status == GitStatus::Modified))
            },
            None => None,
        }
    }

    /// Number of files whose path starts with `p` and is not `p`.
    fn count_under_exec(&self, p: &str) -> (r: usize)
        ensures
            r == count_under(self.files@, p@, self.files@.len() as int),
    {
        let pc = chars_of(p);
        let mut n: usize = 0;
        let mut i: usize = 0;
        while i < self.files.len()
            invariant
                i <= self.files@.len(),
                pc@ == p@,
                n == count_under(self.files@, p@, i as int),
                n <= i,
            decreases self.files@.len() - i,
        {
            let fc = chars_of(self.files[i].path.as_str());
            if has_prefix_exec(fc.as_slice(), pc.as_slice()) && !crate::text::str_eq(self.files[i].path.as_str(), p) {
                n += 1;
            }
            i += 1;
        }
        n
    }

    /// The preview pane (see `preview_spec`).
    pub fn preview(&self, height: u16, content: Option<String>, diff: Vec<i32>) -> (r: Preview)
        ensures
            preview_view(r) == preview_spec(
                *self,
                height,
                match content {
                    Some(t) => Some(t@),
                    None => None,
                },
                diff@,
            ),
    {
        let mut lines: Vec<PreviewLine> = Vec::new();
        match self.selected_file() {
            Some(f) => {
                if f.is_dir {
                    let n = self.count_under_exec(f.path.as_str());
                    push_line(&mut lines, plain_line(""));
                    let mut t = "  📁 ".to_owned();
                    t.append(f.path.as_str());
                    push_line(&mut lines, PreviewLine { text: t, tone: Tone::Reset, background: Tone::Reset });
                    push_line(&mut lines, plain_line(""));
                    let mut c = "  子项数量：".to_owned();
                    push_decimal(&mut c, n);
                    push_line(&mut lines, PreviewLine { text: c, tone: Tone::Reset, background: Tone::Reset });
                    push_line(&mut lines, plain_line(""));
                    push_line(&mut lines, plain_line("  按 Enter 展开目录"));
                    proof {
                        assert(preview_lines_view(lines@) =~= preview_spec(
                            *self,
                            height,
                            match content {
                                Some(t) => Some(t@),
                                None => None,
                            },
                            diff@,
                        ).4);
                    }
                    Preview {
                        title: Some(" 目录预览 ".to_owned()),
                        border: Tone::Cyan,
                        tone: Tone::Gray,
                        background: Tone::Reset,
                        lines,
                    }
                } else {
                    let text = match content {
                        Some(t) => t,
                        None => "无法读取文件（可能是二进制文件）".to_owned(),
                    };
                    let ls = lines_of(text.as_str());
                    let mut head = " 📄 ".to_owned();
                    head.append(f.path.as_str());
                    head.append(" ");
                    push_line(&mut lines, PreviewLine { text: head, tone: Tone::White, background: Tone::DarkGray });
                    let mut st = " 状态：".to_owned();
                    st.append(
                        match f.status {
                            GitStatus::Modified => "已修改",
                            GitStatus::Added => "新增",
                            GitStatus::Deleted => "删除",
                            GitStatus::Untracked => "未跟踪",
                            GitStatus::Renamed => "重命名",
                            GitStatus::Clean => "无变更",
                            _ => "未知",
                        },
                    );
                    st.append(" | 大小：");
                    push_decimal(&mut st, ls.len());
                    st.append(" 行");
                    push_line(&mut lines, PreviewLine { text: st, tone: Tone::Reset, background: Tone::Reset });
                    push_line(&mut lines, plain_line(""));
                    let room: usize = if height >= 4 {
                        (height - 4) as usize
                    } else {
                        0
                    };
                    let shown = if ls.len() < room {
                        ls.len()
                    } else {
                        room
                    };
                    let ghost g = string_views(ls@);
                    let ghost spec_lines = file_preview_lines(*f, text@, diff@, height);
                    proof {
                        assert(g == lines_spec(text@));
                        assert(preview_lines_view(lines@) =~= spec_lines.take(3));
                    }
                    let mut i: usize = 0;
                    while i < shown
                        invariant
                            i <= shown,
                            shown <= ls@.len(),
                            g == string_views(ls@),
                            g == lines_spec(text@),
                            spec_lines == file_preview_lines(*f, text@, diff@, height),
                            shown == (if g.len() < sat_sub_nat(height as int, 4) {
                                g.len()
                            } else {
                                sat_sub_nat(height as int, 4)
                            }),
                            preview_lines_view(lines@) == spec_lines.take(3 + i),
                        decreases shown - i,
                    {
                        let num = i + 1;
                        let mut digits = String::new();
                        push_decimal(&mut digits, num);
                        let mut t = String::new();
                        push_padded(&mut t, digits.as_str(), 4);
                        t.append(" ");
                        t.append(ls[i].as_str());
                        let hit = contains_i32(&diff, num as i32);
                        let l = if hit {
                            PreviewLine { text: t, tone: Tone::Yellow, background: Tone::PreviewChanged }
                        } else {
                            PreviewLine { text: t, tone: Tone::Gray, background: Tone::Reset }
                        };
                        proof {
                            assert(g[i as int] == ls@[i as int]@);
                            assert(spec_lines[3 + i] == preview_line_view(l));
                        }
                        push_line(&mut lines, l);
                        i += 1;
                        proof {
                            assert(spec_lines.take(3 + i) =~= spec_lines.take(3 + i - 1).push(spec_lines[3 + i - 1]));
                        }
                    }
                    proof {
                        assert(spec_lines.take(3 + i) =~= spec_lines);
                    }
                    let mut title = " 预览：".to_owned();
                    title.append(f.path.as_str());
                    title.append(" ");
                    Preview { title: Some(title), border: Tone::Green, tone: Tone::Reset, background: Tone::Black, lines }
                }
            },
            None => {
                push_line(&mut lines, plain_line(""));
                push_line(&mut lines, plain_line(""));
                push_line(&mut lines, plain_line("  没有选中的文件"));
                push_line(&mut lines, plain_line(""));
                push_line(&mut lines, plain_line("  使用 ↑↓ 或鼠标选择文件"));
                push_line(&mut lines, plain_line("  按 Enter 或 e 打开编辑器"));
                proof {
                    assert(preview_lines_view(lines@) =~= preview_spec(
                        *self,
                        height,
                        match content {
                            Some(t) => Some(t@),
                            None => None,
                        },
                        diff@,
                    ).4);
                }
                Preview { title: None, border: Tone::Reset, tone: Tone::Gray, background: Tone::Reset, lines }
            },
        }
    }
}

// ---------------------------------------------------------------------------
// Overlays
// ---------------------------------------------------------------------------

/// The lines of the help window.
pub open spec fn help_text() -> Seq<Seq<char>> {
    seq![
        ""@,
        " │ 目录树导航 (左侧) "@,
        " │ "@,
        " │  ↑        上一个文件        ↓         下一个文件"@,
        " │  PageUp   向上翻页          PageDown  向下翻页"@,
        " │  Home     跳到开头          End       跳到末尾"@,
        " │  ←        折叠目录          →         展开目录"@,
        " │  Space    切换折叠状态"@,
        ""@,
        " │ 文件操作 "@,
        " │ "@,
        " │  Enter    打开文件/折叠目录  m         切换显示模式"@,
        " │  r        手动刷新          0-9       设置刷新间隔 (秒)"@,
        " │  Ctrl+P   搜索文件          Tab       切换到编辑器"@,
        ""@,
        " │ 编辑器操作 (右侧) - VSCode 风格 "@,
        " │ "@,
        " │  ↑↓←→     移动光标          Home/End  行首/行尾"@,
        " │  PageUp   向上翻页          PageDown  向下翻页"@,
        " │  Ctrl+S   保存文件          Ctrl+Z    撤销"@,
        " │  Ctrl+A   全选/跳到开头     Ctrl+Home 跳到文件开头"@,
        " │  Ctrl+End 跳到文件末尾      Ctrl+F    查找"@,
        " │  Ctrl+W   关闭编辑器        Esc       返回目录树"@,
        " │  Backspace 删除前字符       Delete    删除后字符"@,
        ""@,
        " │ 鼠标操作 "@,
        " │ "@,
        " │  滚轮     滚动              左键点击  选择文件/定位光标"@,
        " │  中键点击 整页翻页"@,
        ""@,
        " │ Git 状态 "@,
        " │ "@,
        " │  M (黄)   已修改     A (绿)   新增        D (红)   删除"@,
        " │  ?? (灰)  未跟踪     R (紫)   重命名"@,
        ""@,
        " │ Diff 高亮 "@,
        " │ "@,
        " │  绿色行号/背景  表示修改的行"@,
        ""@,
        " │ 其他 "@,
        " │ "@,
        " │  ?        切换帮助          q         退出应用"@,
        ""@,
    ]
}

/// The lines of the help window.
pub fn help_lines() -> (r: Vec<String>)
    ensures
        string_views(r@) == help_text(),
{
    let mut r: Vec<String> = Vec::new();
    r.push("".to_owned());
    r.push(" │ 目录树导航 (左侧) ".to_owned());
    r.push(" │ ".to_owned());
    r.push(" │  ↑        上一个文件        ↓         下一个文件".to_owned());
    r.push(" │  PageUp   向上翻页          PageDown  向下翻页".to_owned());
    r.push(" │  Home     跳到开头          End       跳到末尾".to_owned());
    r.push(" │  ←        折叠目录          →         展开目录".to_owned());
    r.push(" │  Space    切换折叠状态".to_owned());
    r.push("".to_owned());
    r.push(" │ 文件操作 ".to_owned());
    r.push(" │ ".to_owned());
    r.push(" │  Enter    打开文件/折叠目录  m         切换显示模式".to_owned());
    r.push(" │  r        手动刷新          0-9       设置刷新间隔 (秒)".to_owned());
    r.push(" │  Ctrl+P   搜索文件          Tab       切换到编辑器".to_owned());
    r.push("".to_owned());
    r.push(" │ 编辑器操作 (右侧) - VSCode 风格 ".to_owned());
    r.push(" │ ".to_owned());
    r.push(" │  ↑↓←→     移动光标          Home/End  行首/行尾".to_owned());
    r.push(" │  PageUp   向上翻页          PageDown  向下翻页".to_owned());
    r.push(" │  Ctrl+S   保存文件          Ctrl+Z    撤销".to_owned());
    r.push(" │  Ctrl+A   全选/跳到开头     Ctrl+Home 跳到文件开头".to_owned());
    r.push(" │  Ctrl+End 跳到文件末尾      Ctrl+F    查找".to_owned());
    r.push(" │  Ctrl+W   关闭编辑器        Esc       返回目录树".to_owned());
    r.push(" │  Backspace 删除前字符       Delete    删除后字符".to_owned());
    r.push("".to_owned());
    r.push(" │ 鼠标操作 ".to_owned());
    r.push(" │ ".to_owned());
    r.push(" │  滚轮     滚动              左键点击  选择文件/定位光标".to_owned());
    r.push(" │  中键点击 整页翻页".to_owned());
    r.push("".to_owned());
    r.push(" │ Git 状态 ".to_owned());
    r.push(" │ ".to_owned());
    r.push(" │  M (黄)   已修改     A (绿)   新增        D (红)   删除".to_owned());
    r.push(" │  ?? (灰)  未跟踪     R (紫)   重命名".to_owned());
    r.push("".to_owned());
    r.push(" │ Diff 高亮 ".to_owned());
    r.push(" │ ".to_owned());
    r.push(" │  绿色行号/背景  表示修改的行".to_owned());
    r.push("".to_owned());
    r.push(" │ 其他 ".to_owned());
    r.push(" │ ".to_owned());
    r.push(" │  ?        切换帮助          q         退出应用".to_owned());
    r.push("".to_owned());
    proof {
        assert(string_views(r@) =~= help_text());
    }
    r
}

/// The lines of a message window: a blank line, the message indented by two,
/// and a closing line.
pub open spec fn message_lines(msg: Seq<char>, closing: Seq<Seq<char>>) -> Seq<Seq<char>> {
    seq![""@, "  "@ + msg] + closing
}

/// The closing lines of the error window.
pub open spec fn error_closing() -> Seq<Seq<char>> {
    seq![""@, " 按任意键继续..."@]
}

/// The closing lines of the search window.
pub open spec fn search_closing() -> Seq<Seq<char>> {
    seq![""@, "  按 Enter 确认，Esc 取消"@]
}

/// The search window's cursor cell in a window at `area`, after the query.
pub open spec fn search_cursor_spec(a: App, area: Rect) -> (u16, u16) {
    ((area.x + 5 + (byte_len(a.search_query@) % 65536)) as u16, (area.y + 2) as u16)
}

/// The search window's cursor arithmetic stays within `u16`.
pub open spec fn search_cursor_fits(a: App, area: Rect) -> bool {
    &&& area.x + 5 + (byte_len(a.search_query@) % 65536) <= u16::MAX
    &&& area.y + 2 <= u16::MAX
}

fn message_window(msg: &str, closing: &str, last: bool) -> (r: Vec<String>)
    ensures
        string_views(r@) == (if last {
            message_lines(msg@, seq![""@, closing@])
        } else {
            message_lines(msg@, seq![""@])
        }),
{
    let mut r: Vec<String> = Vec::new();
    r.push("".to_owned());
    let mut m = "  ".to_owned();
    m.append(msg);
    r.push(m);
    r.push("".to_owned());
    if last {
        r.push(closing.to_owned());
    }
    proof {
        if last {
            assert(string_views(r@) =~= message_lines(msg@, seq![""@, closing@]));
        } else {
            assert(string_views(r@) =~= message_lines(msg@, seq![""@]));
        }
    }
    r
}

impl App {
    /// The lines of the error window (the error message, or nothing when there
    /// is none).
    pub fn error_lines(&self) -> (r: Vec<String>)
        ensures
            string_views(r@) == message_lines(
                match self.error_message {
                    Some(m) => m@,
                    None => ""@,
                },
                error_closing(),
            ),
    {
        let msg = match &self.error_message {
            Some(m) => m.as_str(),
            None => "",
        };
        message_window(msg, " 按任意键继续...", true)
    }

    /// The lines of the message window for the current status message, if any.
    pub fn status_message_lines(&self) -> (r: Option<Vec<String>>)
        ensures
            match self.status_message {
                Some(m) => r matches Some(v) && string_views(v@) == message_lines(m@, seq![""@]),
                None => r is None,
            },
    {
        match &self.status_message {
            Some(m) => Some(message_window(m.as_str(), "", false)),
            None => None,
        }
    }

    /// The lines of the search window.
    pub fn search_lines(&self) -> (r: Vec<String>)
        ensures
            string_views(r@) == message_lines("搜索："@ + self.search_query@, search_closing()),
    {
        let mut q = "搜索：".to_owned();
        q.append(self.search_query.as_str());
        message_window(q.as_str(), "  按 Enter 确认，Esc 取消", true)
    }

    /// Where the terminal cursor goes in a search window at `area`.
    pub fn search_cursor(&self, area: Rect) -> (r: (u16, u16))
        requires
            search_cursor_fits(*self, area),
        ensures
            r == search_cursor_spec(*self, area),
    {
        let qc = chars_of(self.search_query.as_str());
        proof {
            crate::text::lemma_byte_len_at_least_len(qc@);
        }
        let n = byte_len_capped_u16(qc.as_slice());
        (area.x + 5 + n, area.y + 2)
    }
}

/// The low 16 bits of `byte_len(cs)` (what `str::len() as u16` gives).
fn byte_len_capped_u16(cs: &[char]) -> (n: u16)
    ensures
        n == byte_len(cs@) % 65536,
{
    let mut n: u32 = 0;
    let mut k: usize = 0;
    while k < cs.len()
        invariant
            k <= cs@.len(),
            n < 65536,
            n == byte_len(cs@.take(k as int)) % 65536,
        decreases cs@.len() - k,
    {
        proof {
            lemma_byte_len_step(cs@, k as int);
        }
        n = (n + utf8_width_exec(cs[k]) as u32) % 65536;
        k += 1;
    }
    proof {
        assert(cs@.take(k as int) =~= cs@);
    }
    n as u16
}

} // verus!
