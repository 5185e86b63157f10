//! The table of a listing: the text of each cell, the columns that the
//! records call for, and the rows in the order of the records.

use crate::commands::git::{status_of, INDEX_MODIFIED, INDEX_NEW, WT_MODIFIED, WT_NEW};
use crate::commands::ls::{records_of, DEntry, DirSnapshot, Record, EXECUTABLE, USER_PERM};
use crate::style::ansi::{
    blue, blue_text, lemma_strip_blue, lemma_strip_concat, lemma_strip_plain,
    lemma_strip_truecolor, plain, strip_ansi, truecolor, truecolor_text,
};
use crate::style::color::{color_of_hex, RenderError, RGB};
use crate::text::{
    after_last, before_first, chars_of, count_of, decimal, decimal_string, first_part_end,
    last_part_start, occurrences, string_of,
};
use tabled::builder::Builder;
use tabled::settings::object::{Columns, Rows};
use tabled::settings::{Alignment, Color, Modify, Style};
use vstd::prelude::*;
use vstd::string::StringExecFns;

verus! {

/// The colour of a permission that is not granted, and of a missing status.
pub open spec fn muted() -> (u8, u8, u8) {
    (110, 106, 134)
}

/// One permission: its letter in its colour where `perm` has the bit `mask`,
/// else a muted dash.
pub open spec fn perm_flag(perm: u32, mask: u32, letter: Seq<char>, color: (u8, u8, u8)) -> Seq<
    char,
> {
    if perm & mask != 0 {
        truecolor_text(letter, color)
    } else {
        truecolor_text("-"@, muted())
    }
}

/// The three permissions of `perm`: read is bit 4, write bit 2, execute
/// bit 1.
pub open spec fn perm_text(perm: u32) -> Seq<char> {
    perm_flag(perm, 4, "r"@, (235, 111, 146)) + perm_flag(perm, 2, "w"@, (246, 193, 119))
        + perm_flag(perm, 1, "x"@, (193, 225, 193))
}

/// The mode cell of a permission triplet.
pub fn perm_to_string(perm: u32) -> (out: String)
    ensures
        out@ == perm_text(perm),
{
    let mut out = if perm & 0o4 != 0 {
        truecolor("r", 235, 111, 146)
    } else {
        truecolor("-", 110, 106, 134)
    };
    let write = if perm & 0o2 != 0 {
        truecolor("w", 246, 193, 119)
    } else {
        truecolor("-", 110, 106, 134)
    };
    let execute = if perm & 0o1 != 0 {
        truecolor("x", 193, 225, 193)
    } else {
        truecolor("-", 110, 106, 134)
    };
    out.append(write.as_str());
    out.append(execute.as_str());
    out
}

/// `path` with the prefix `home` replaced by a tilde. An empty `home` is a
/// prefix of nothing.
pub open spec fn home_replaced(path: Seq<char>, home: Seq<char>) -> Seq<char> {
    if home.len() > 0 && home.is_prefix_of(path) {
        seq!['~'] + path.skip(home.len() as int)
    } else {
        path
    }
}

/// The length from which on a path is shortened: a third of the terminal's
/// width, which is taken as 80 where it is unknown.
pub open spec fn threshold(term_width: Option<u16>) -> nat {
    match term_width {
        Some(w) => (w / 3) as nat,
        None => 80nat / 3,
    }
}

/// The number of bytes of `s` in UTF-8.
pub open spec fn byte_len(s: Seq<char>) -> nat {
    vstd::utf8::encode_utf8(s).len()
}

/// `p` begins at the root.
pub open spec fn rooted(p: Seq<char>) -> bool {
    p.len() > 0 && p[0] == '/'
}

/// `p` without the slash of the root.
pub open spec fn unrooted(p: Seq<char>) -> Seq<char> {
    if rooted(p) {
        p.skip(1)
    } else {
        p
    }
}

/// The number of components of `p`, separated by slashes; the slash of the
/// root separates nothing.
pub open spec fn components(p: Seq<char>) -> nat {
    occurrences(unrooted(p), '/') + 1
}

/// The first component of `p`, with the slash of the root before it where
/// `p` has one.
pub open spec fn first_component(p: Seq<char>) -> Seq<char> {
    if rooted(p) {
        seq!['/'] + before_first(p.skip(1), '/')
    } else {
        before_first(p, '/')
    }
}

/// `p` with everything between its first and its last component replaced by
/// three dots.
pub open spec fn shortened(p: Seq<char>) -> Seq<char> {
    first_component(p) + "/.../"@ + after_last(p, '/')
}

/// The link cell for the target `path`: the home directory abbreviated, and
/// the result shortened where it is longer than the threshold and has more
/// than three components.
pub open spec fn truncated(path: Seq<char>, home: Seq<char>, term_width: Option<u16>) -> Seq<char> {
    let replaced = home_replaced(path, home);
    if byte_len(replaced) > threshold(term_width) && components(replaced) > 3 {
        shortened(replaced)
    } else {
        replaced
    }
}

/// The link cell for the target `path`, where `home` is the home directory
/// and `term_width` the terminal's width in columns, if it is known.
pub fn truncate_path(path: &str, home: &str, term_width: Option<u16>) -> (out: String)
    ensures
        out@ == truncated(path@, home@, term_width),
{
    let p = chars_of(path);
    let h = chars_of(home);
    let mut is_prefix = false;
    if h.len() > 0 && h.len() <= p.len() {
        let mut i: usize = 0;
        while i < h.len() && h[i] == p[i]
            invariant
                i <= h.len() <= p.len(),
                forall|k: int| 0 <= k < i ==> h@[k] == p@[k],
            decreases h.len() - i,
        {
            i = i + 1;
        }
        is_prefix = i == h.len();
        if !is_prefix {
            assert(p@.subrange(0, h@.len() as int)[i as int] == p@[i as int]);
        }
    }
    let r: Vec<char> = if is_prefix {
        assert(h@ =~= p@.subrange(0, h@.len() as int));
        let mut r: Vec<char> = Vec::new();
        r.push('~');
        let mut k: usize = h.len();
        while k < p.len()
            invariant
                h.len() <= k <= p.len(),
                r@ == seq!['~'] + p@.subrange(h.len() as int, k as int),
            decreases p.len() - k,
        {
            r.push(p[k]);
            k = k + 1;
            assert(seq!['~'] + p@.subrange(h.len() as int, k as int) =~= (seq!['~'] + p@.subrange(
                h.len() as int,
                k - 1,
            )).push(p@[k - 1]));
        }
        assert(p@.subrange(h.len() as int, p.len() as int) =~= p@.skip(h.len() as int));
        r
    } else {
        p
    };
    assert(r@ == home_replaced(path@, home@));
    let n = r.len();
    let replaced = string_of(&r, 0, n);
    assert(r@.subrange(0, n as int) =~= r@);
    let limit: usize = match term_width {
        Some(w) => (w / 3) as usize,
        None => 80 / 3,
    };
    let root: usize = if n > 0 && r[0] == '/' {
        1
    } else {
        0
    };
    assert(r@.skip(root as int) == unrooted(r@));
    let bytes = replaced.as_str().as_bytes().len();
    if bytes > limit && count_of(&r, root, '/') >= 3 {
        let first_end = first_part_end(&r, root, '/');
        let last_start = last_part_start(&r, n, '/');
        assert(r@.take(n as int) =~= r@);
        assert(r@.subrange(0, first_end as int) =~= first_component(r@)) by {
            if root == 1 {
                assert(r@.subrange(0, first_end as int) =~= seq!['/'] + r@.subrange(
                    1,
                    first_end as int,
                ));
            }
        }
        let mut out = string_of(&r, 0, first_end);
        out.append("/.../");
        let last = string_of(&r, last_start, n);
        out.append(last.as_str());
        out
    } else {
        replaced
    }
}

/// The name of a record in the colour of its role: a symbolic link, else a
/// directory, else an executable file, else without colour.
pub open spec fn name_text(r: Record) -> Seq<char> {
    if r.symlink is Some {
        truecolor_text(r.name, (156, 207, 216))
    } else if r.is_dir {
        blue_text(r.name)
    } else if r.is_exec {
        truecolor_text(r.name, (193, 225, 193))
    } else {
        r.name
    }
}

/// The name of `dentry` in the colour of its role.
pub fn color_name(dentry: &DEntry) -> (out: String)
    ensures
        out@ == name_text(dentry@),
{
    if dentry.symlink.is_some() {
        truecolor(dentry.name.as_str(), 156, 207, 216)
    } else if dentry.is_dir {
        blue(dentry.name.as_str())
    } else if dentry.is_exec {
        truecolor(dentry.name.as_str(), 193, 225, 193)
    } else {
        dentry.name.clone()
    }
}

/// The label of a version-control status. A status is compared as a
/// whole, in this order: a change in the working tree, a new file in the
/// working tree, a new file in the index, a change in the index. Any other
/// status reads `Ignored`, and a missing one is a dash.
pub open spec fn git_label(status: Option<u32>) -> Seq<char> {
    match status {
        Some(flags) => if flags == WT_MODIFIED {
            "Modified"@
        } else if flags == WT_NEW {
            "Untracked"@
        } else if flags == INDEX_NEW {
            "Staged"@
        } else if flags == INDEX_MODIFIED {
            "Staged Modified"@
        } else {
            "Ignored"@
        },
        None => "-"@,
    }
}

/// The colour of the label of a version-control status.
pub open spec fn git_color(status: Option<u32>) -> (u8, u8, u8) {
    match status {
        Some(flags) => if flags == WT_MODIFIED {
            (246, 193, 119)
        } else if flags == WT_NEW {
            (196, 167, 231)
        } else if flags == INDEX_NEW || flags == INDEX_MODIFIED {
            (49, 116, 143)
        } else {
            muted()
        },
        None => muted(),
    }
}

/// The label of a version-control status in its colour.
pub open spec fn git_text(status: Option<u32>) -> Seq<char> {
    truecolor_text(git_label(status), git_color(status))
}

/// The git cell of `dentry`.
pub fn color_git(dentry: &DEntry) -> (out: String)
    ensures
        out@ == git_text(dentry@.git_status),
{
    match dentry.git_status {
        Some(flags) => {
            if flags == WT_MODIFIED {
                truecolor("Modified", 246, 193, 119)
            } else if flags == WT_NEW {
                truecolor("Untracked", 196, 167, 231)
            } else if flags == INDEX_NEW {
                truecolor("Staged", 49, 116, 143)
            } else if flags == INDEX_MODIFIED {
                truecolor("Staged Modified", 49, 116, 143)
            } else {
                truecolor("Ignored", 110, 106, 134)
            }
        },
        None => truecolor("-", 110, 106, 134),
    }
}

/// A header label in the header's colour.
pub open spec fn header_text(label: Seq<char>) -> Seq<char> {
    truecolor_text(label, (196, 167, 231))
}

/// The header: name, size and mode, then the link column and the git column
/// where they are called for.
pub open spec fn header_row(has_link: bool, has_git: bool) -> Seq<Seq<char>> {
    seq![header_text("Name"@), header_text("Size"@), header_text("Mode"@)] + (if has_link {
        seq![header_text("Link"@)]
    } else {
        Seq::empty()
    }) + (if has_git {
        seq![header_text("Git"@)]
    } else {
        Seq::empty()
    })
}

/// Some record is a symbolic link with a target.
pub open spec fn any_link(records: Seq<Record>) -> bool {
    exists|i: int| 0 <= i < records.len() && (#[trigger] records[i]).symlink is Some
}

/// Some record has a version-control status.
pub open spec fn any_status(records: Seq<Record>) -> bool {
    exists|i: int| 0 <= i < records.len() && (#[trigger] records[i]).git_status is Some
}

/// The name cell: the glyph in the icon's colour, two spaces, and the name
/// in the colour of its role.
pub open spec fn name_cell(r: Record) -> Seq<char> {
    truecolor_text(seq![r.icon.0], color_of_hex(r.icon.1)->0) + "  "@ + name_text(r)
}

/// The link cell: the target as `truncated` gives it; empty for a record
/// without one.
pub open spec fn link_text(r: Record, home: Seq<char>, term_width: Option<u16>) -> Seq<char> {
    match r.symlink {
        Some(target) => truncated(target, home, term_width),
        None => Seq::empty(),
    }
}

/// The row of a record, in the columns of the header.
pub open spec fn row(
    r: Record,
    has_link: bool,
    has_git: bool,
    home: Seq<char>,
    term_width: Option<u16>,
) -> Seq<Seq<char>> {
    seq![name_cell(r), decimal(r.size as nat), perm_text(r.user_perm >> 6)] + (if has_link {
        seq![link_text(r, home, term_width)]
    } else {
        Seq::empty()
    }) + (if has_git {
        seq![git_text(r.git_status)]
    } else {
        Seq::empty()
    })
}

/// The colour of every icon can be read.
pub open spec fn renderable(records: Seq<Record>) -> bool {
    forall|i: int| 0 <= i < records.len() ==> color_of_hex((#[trigger] records[i]).icon.1) is Some
}

/// The rows of a listing: the header, then one row for each record, in
/// their order.
pub open spec fn ls_rows(records: Seq<Record>, home: Seq<char>, term_width: Option<u16>) -> Seq<
    Seq<Seq<char>>,
> {
    seq![header_row(any_link(records), any_status(records))] + Seq::new(
        records.len(),
        |i: int| row(records[i], any_link(records), any_status(records), home, term_width),
    )
}

/// The texts of a list of strings.
pub open spec fn texts(cells: Seq<String>) -> Seq<Seq<char>> {
    Seq::new(cells.len(), |i: int| cells[i]@)
}

/// The texts of a list of rows.
pub open spec fn row_texts(rows: Seq<Vec<String>>) -> Seq<Seq<Seq<char>>> {
    Seq::new(rows.len(), |i: int| texts(rows[i]@))
}

/// The header cells for the given columns.
pub fn header_cells(has_link: bool, has_git: bool) -> (cells: Vec<String>)
    ensures
        texts(cells@) == header_row(has_link, has_git),
{
    let c = RGB::header_color();
    let mut cells: Vec<String> = Vec::new();
    cells.push(truecolor("Name", c.r(), c.g(), c.b()));
    cells.push(truecolor("Size", c.r(), c.g(), c.b()));
    cells.push(truecolor("Mode", c.r(), c.g(), c.b()));
    if has_link {
        cells.push(truecolor("Link", c.r(), c.g(), c.b()));
    }
    if has_git {
        cells.push(truecolor("Git", c.r(), c.g(), c.b()));
    }
    assert(texts(cells@) =~= header_row(has_link, has_git));
    cells
}

/// The cells of the row of `dentry`. It fails where the colour of the icon
/// cannot be read.
pub fn row_cells(
    dentry: &DEntry,
    has_link: bool,
    has_git: bool,
    home: &str,
    term_width: Option<u16>,
) -> (out: Result<Vec<String>, RenderError>)
    ensures
        out is Ok <==> color_of_hex(dentry@.icon.1) is Some,
        out matches Err(e) ==> e == RenderError::MalformedColor,
        out matches Ok(cells) ==> texts(cells@) == row(
            dentry@,
            has_link,
            has_git,
            home@,
            term_width,
        ),
{
    let rgb = match RGB::hex_to_rgb(dentry.icon.color.as_str()) {
        Ok(rgb) => rgb,
        Err(e) => {
            return Err(e);
        },
    };
    let mut glyph = String::new();
    glyph.push(dentry.icon.glyph);
    assert(glyph@ =~= seq![dentry.icon.glyph]);
    let mut name = truecolor(glyph.as_str(), rgb.r(), rgb.g(), rgb.b());
    name.append("  ");
    name.append(color_name(dentry).as_str());
    let mut cells: Vec<String> = Vec::new();
    cells.push(name);
    cells.push(decimal_string(dentry.size));
    cells.push(perm_to_string(dentry.user_perm >> 6));
    if has_link {
        match &dentry.symlink {
            Some(target) => {
                cells.push(truncate_path(target.as_str(), home, term_width));
            },
            None => {
                cells.push(String::new());
            },
        }
    }
    if has_git {
        cells.push(color_git(dentry));
    }
    assert(texts(cells@) =~= row(dentry@, has_link, has_git, home@, term_width));
    Ok(cells)
}

/// The rows of the listing `dentries`, the header first. It fails where the
/// colour of some icon cannot be read.
pub fn table_rows(dentries: &[DEntry], home: &str, term_width: Option<u16>) -> (out: Result<
    Vec<Vec<String>>,
    RenderError,
>)
    ensures
        out is Ok <==> renderable(records_of(dentries@)),
        out matches Err(e) ==> e == RenderError::MalformedColor,
        out matches Ok(rows) ==> row_texts(rows@) == ls_rows(
            records_of(dentries@),
            home@,
            term_width,
        ),
{
    let ghost records = records_of(dentries@);
    let n = dentries.len();
    let mut has_link = false;
    let mut has_git = false;
    let mut i: usize = 0;
    while i < n
        invariant
            n == dentries.len(),
            i <= n,
            records == records_of(dentries@),
            has_link <==> any_link(records.take(i as int)),
            has_git <==> any_status(records.take(i as int)),
        decreases n - i,
    {
        let ghost seen = records.take(i as int);
        let ghost more = records.take(i + 1);
        proof {
            assert(more[i as int] == dentries@[i as int]@);
            if any_link(seen) {
                let k = choose|k: int| 0 <= k < seen.len() && (#[trigger] seen[k]).symlink is Some;
                assert(more[k].symlink is Some);
            }
            if any_status(seen) {
                let k = choose|k: int|
                    0 <= k < seen.len() && (#[trigger] seen[k]).git_status is Some;
                assert(more[k].git_status is Some);
            }
            if any_link(more) && !any_link(seen) {
                let k = choose|k: int| 0 <= k < more.len() && (#[trigger] more[k]).symlink is Some;
                if k < i {
                    assert(seen[k].symlink is Some);
                }
            }
            if any_status(more) && !any_status(seen) {
                let k = choose|k: int|
                    0 <= k < more.len() && (#[trigger] more[k]).git_status is Some;
                if k < i {
                    assert(seen[k].git_status is Some);
                }
            }
        }
        if dentries[i].symlink.is_some() {
            has_link = true;
        }
        if dentries[i].git_status.is_some() {
            has_git = true;
        }
        i = i + 1;
    }
    assert(records.take(n as int) =~= records);
    let mut rows: Vec<Vec<String>> = Vec::new();
    rows.push(header_cells(has_link, has_git));
    let ghost expected = ls_rows(records, home@, term_width);
    assert(row_texts(rows@) =~= expected.take(1));
    i = 0;
    while i < n
        invariant
            n == dentries.len(),
            i <= n,
            records == records_of(dentries@),
            has_link <==> any_link(records),
            has_git <==> any_status(records),
            expected == ls_rows(records, home@, term_width),
            row_texts(rows@) == expected.take(i + 1),
            forall|k: int| 0 <= k < i ==> color_of_hex((#[trigger] records[k]).icon.1) is Some,
        decreases n - i,
    {
        let ghost before = rows@;
        match row_cells(&dentries[i], has_link, has_git, home, term_width) {
            Err(e) => {
                assert(color_of_hex(records[i as int].icon.1) is None);
                return Err(e);
            },
            Ok(cells) => {
                rows.push(cells);
                assert(row_texts(rows@) =~= row_texts(before).push(expected[i + 1]));
                assert(expected.take(i + 2) =~= expected.take(i + 1).push(expected[i + 1]));
            },
        }
        i = i + 1;
    }
    assert(expected.take(n + 1) =~= expected);
    Ok(rows)
}

/// A table under construction, as a value: its rows, each a list of cell
/// texts, and its number of columns.
pub struct Grid {
    pub rows: Seq<Seq<Seq<char>>>,
    pub columns: nat,
}

/// `n` empty cells.
pub open spec fn blanks(n: int) -> Seq<Seq<char>> {
    Seq::new(
        if n > 0 {
            n as nat
        } else {
            0
        },
        |i: int| Seq::empty(),
    )
}

impl Grid {
    /// The grid without rows or columns.
    pub open spec fn empty() -> Grid {
        Grid { rows: Seq::empty(), columns: 0 }
    }

    /// The grid with `row` added as its last row. The grid becomes as wide as
    /// its widest row: shorter rows are filled up with empty cells at their
    /// end.
    pub open spec fn push(self, row: Seq<Seq<char>>) -> Grid {
        let columns = if row.len() > self.columns {
            row.len()
        } else {
            self.columns
        };
        Grid {
            rows: Seq::new(
                self.rows.len(),
                |i: int| self.rows[i] + blanks(columns - self.columns),
            ).push(row + blanks(columns - row.len())),
            columns,
        }
    }

    /// The grid with each of `rows` added in turn.
    pub open spec fn push_all(self, rows: Seq<Seq<Seq<char>>>) -> Grid
        decreases rows.len(),
    {
        if rows.len() == 0 {
            self
        } else {
            self.push_all(rows.drop_last()).push(rows.last())
        }
    }
}

/// `Builder` of tabled, which collects the rows of a table. Nothing inside
/// it is seen here: what it holds is spoken of through `builder_rows` and
/// `builder_columns`.
#[verifier::external_type_specification]
#[verifier::external_body]
pub struct ExBuilder(Builder);

/// The rows that a builder of tabled holds, each as its cell texts.
pub uninterp spec fn builder_rows(builder: Builder) -> Seq<Seq<Seq<char>>>;

/// The number of columns that a builder of tabled has counted.
pub uninterp spec fn builder_columns(builder: Builder) -> nat;

/// The text that tabled renders for the given rows and number of columns in
/// its rounded style, with the first row and the column `centered` centred
/// and the column `tinted` in the foreground colour (`red`, `green`, `blue`).
pub uninterp spec fn rounded_table(
    rows: Seq<Seq<Seq<char>>>,
    columns: nat,
    tinted: nat,
    red: u8,
    green: u8,
    blue: u8,
    centered: nat,
) -> Seq<char>;

/// `Builder::new` of tabled: a builder without rows, which has counted no
/// column.
pub assume_specification[ Builder::new ]() -> (builder: Builder)
    ensures
        builder_rows(builder) == Seq::<Seq<Seq<char>>>::empty(),
        builder_columns(builder) == 0,
;

/// `Builder::push_record` of tabled: the record becomes the last row. Where
/// it is shorter than the columns counted so far, it is filled up with empty
/// cells; where it is longer, the rows before it are, and the count grows to
/// its length.
#[verifier::external_body]
fn push_record(builder: &mut Builder, record: &Vec<String>)
    ensures
        builder_rows(*final(builder)) == (Grid {
            rows: builder_rows(*old(builder)),
            columns: builder_columns(*old(builder)),
        }).push(texts(record@)).rows,
        builder_columns(*final(builder)) == (Grid {
            rows: builder_rows(*old(builder)),
            columns: builder_columns(*old(builder)),
        }).push(texts(record@)).columns,
{
    builder.push_record(record.clone());
}

/// `Builder::build` of tabled, the table then styled and written out: with
/// `Style::rounded`, with `Color::rgb_fg` on `Columns::one(tinted)`, with
/// `Alignment::center` on `Rows::first` and on `Columns::one(centered)`, and
/// `to_string`. The text depends on the rows, the column count and these
/// settings alone; it is not stated here, only named.
#[verifier::external_body]
fn render_rounded(
    builder: Builder,
    tinted: usize,
    red: u8,
    green: u8,
    blue: u8,
    centered: usize,
) -> (out: String)
    ensures
        out@ == rounded_table(
            builder_rows(builder),
            builder_columns(builder),
            tinted as nat,
            red,
            green,
            blue,
            centered as nat,
        ),
{
    builder.build()
        .with(Style::rounded())
        .with(Modify::new(Columns::one(tinted)).with(Color::rgb_fg(red, green, blue)))
        .with(Modify::new(Rows::first()).with(Alignment::center()))
        .with(Modify::new(Columns::one(centered)).with(Alignment::center()))
        .to_string()
}

/// The table of a listing. Its view is the grid of the rows rendered into it
/// so far.
pub struct DisplayTable {
    builder: Builder,
}

impl View for DisplayTable {
    type V = Grid;

    closed spec fn view(&self) -> Grid {
        Grid { rows: builder_rows(self.builder), columns: builder_columns(self.builder) }
    }
}

/// The text of a finished table: the grid as tabled renders it in its
/// rounded style, the header row and the mode column centred, the size
/// column in its colour.
pub open spec fn table_text(grid: Grid) -> Seq<char> {
    rounded_table(grid.rows, grid.columns, 1, 235, 188, 186, 2)
}

impl DisplayTable {
    /// A table without rows.
    pub fn new() -> (table: Self)
        ensures
            table@ == Grid::empty(),
    {
        Self { builder: Builder::new() }
    }

    /// Adds the header and the rows of the listing `dentries` to the table.
    /// `home` is the home directory and `term_width` the terminal's width in
    /// columns, if it is known: both decide how link targets are shown. Where
    /// the colour of some icon cannot be read, it fails and the table stays
    /// as it was.
    pub fn render_ls(&mut self, dentries: &[DEntry], home: &str, term_width: Option<u16>) -> (out:
        Result<(), RenderError>)
        ensures
            out is Ok <==> renderable(records_of(dentries@)),
            out matches Err(e) ==> e == RenderError::MalformedColor && final(self)@ == old(self)@,
            out is Ok ==> final(self)@ == old(self)@.push_all(
                ls_rows(records_of(dentries@), home@, term_width),
            ),
    {
        let rows = match table_rows(dentries, home, term_width) {
            Ok(rows) => rows,
            Err(e) => {
                return Err(e);
            },
        };
        let ghost expected = row_texts(rows@);
        let mut i: usize = 0;
        assert(expected.take(0) =~= Seq::<Seq<Seq<char>>>::empty());
        while i < rows.len()
            invariant
                i <= rows.len(),
                expected == row_texts(rows@),
                self@ == old(self)@.push_all(expected.take(i as int)),
            decreases rows.len() - i,
        {
            push_record(&mut self.builder, &rows[i]);
            assert(expected.take(i + 1).drop_last() =~= expected.take(i as int));
            i = i + 1;
        }
        assert(expected.take(rows.len() as int) =~= expected);
        Ok(())
    }

    /// The finished table as text, with a line break at its end.
    pub fn display(self) -> (out: String)
        ensures
            out@ == table_text(self@).push('\n'),
    {
        let mut out = render_rounded(self.builder, 1, 235, 188, 186, 2);
        out.push('\n');
        out
    }
}

/// The letters of a permission triplet: `r`, `w` and `x`, each replaced by a
/// dash where `perm` lacks its bit.
pub open spec fn perm_letters(perm: u32) -> Seq<char> {
    seq![
        if perm & 4 != 0 {
            'r'
        } else {
            '-'
        },
        if perm & 2 != 0 {
            'w'
        } else {
            '-'
        },
        if perm & 1 != 0 {
            'x'
        } else {
            '-'
        },
    ]
}

/// The plain text of a mode cell is `rwx`, with a dash in place of each
/// letter whose bit is not set.
pub proof fn lemma_perm_plain(perm: u32)
    ensures
        strip_ansi(perm_text(perm)) == perm_letters(perm),
{
    reveal_strlit("r");
    reveal_strlit("w");
    reveal_strlit("x");
    reveal_strlit("-");
    let r = perm_flag(perm, 4, "r"@, (235, 111, 146));
    let w = perm_flag(perm, 2, "w"@, (246, 193, 119));
    let x = perm_flag(perm, 1, "x"@, (193, 225, 193));
    lemma_strip_truecolor("r"@, (235, 111, 146));
    lemma_strip_truecolor("w"@, (246, 193, 119));
    lemma_strip_truecolor("x"@, (193, 225, 193));
    lemma_strip_truecolor("-"@, muted());
    lemma_strip_concat(r, w, false);
    lemma_strip_concat(r + w, x, false);
    assert("r"@ =~= seq!['r']);
    assert("w"@ =~= seq!['w']);
    assert("x"@ =~= seq!['x']);
    assert("-"@ =~= seq!['-']);
    assert(strip_ansi(r) + strip_ansi(w) + strip_ansi(x) =~= perm_letters(perm));
}

/// The plain text of a git cell is the label of the status.
pub proof fn lemma_git_plain(status: Option<u32>)
    ensures
        strip_ansi(git_text(status)) == git_label(status),
{
    reveal_strlit("Modified");
    reveal_strlit("Untracked");
    reveal_strlit("Staged");
    reveal_strlit("Staged Modified");
    reveal_strlit("Ignored");
    reveal_strlit("-");
    lemma_strip_truecolor(git_label(status), git_color(status));
}

/// The plain text of a name cell is the glyph, two spaces and the name,
/// where neither holds an escape character.
pub proof fn lemma_name_cell_plain(r: Record)
    requires
        plain(r.name),
        r.icon.0 != '\x1b',
    ensures
        strip_ansi(name_text(r)) == r.name,
        strip_ansi(name_cell(r)) == seq![r.icon.0] + "  "@ + r.name,
{
    reveal_strlit("  ");
    let icon = truecolor_text(seq![r.icon.0], color_of_hex(r.icon.1)->0);
    lemma_strip_truecolor(seq![r.icon.0], color_of_hex(r.icon.1)->0);
    lemma_strip_truecolor(r.name, (156, 207, 216));
    lemma_strip_truecolor(r.name, (193, 225, 193));
    lemma_strip_blue(r.name);
    lemma_strip_plain(r.name);
    lemma_strip_plain("  "@);
    lemma_strip_concat(icon, "  "@, false);
    lemma_strip_concat(icon + "  "@, name_text(r), false);
}

/// The mode cell of a record made from a file mode shows the owner's bits
/// of that mode, and no others.
pub proof fn lemma_mode_shows_owner_bits(mode: u32)
    ensures
        perm_letters((mode & USER_PERM) >> 6) == seq![
            if mode & 0o400 != 0 {
                'r'
            } else {
                '-'
            },
            if mode & 0o200 != 0 {
                'w'
            } else {
                '-'
            },
            if mode & 0o100 != 0 {
                'x'
            } else {
                '-'
            },
        ],
        ((mode & USER_PERM) >> 6) & 1 != 0 <==> mode & EXECUTABLE != 0,
{
    assert((((mode & 0o700) >> 6) & 4 != 0) == (mode & 0o400 != 0)) by (bit_vector);
    assert((((mode & 0o700) >> 6) & 2 != 0) == (mode & 0o200 != 0)) by (bit_vector);
    assert((((mode & 0o700) >> 6) & 1 != 0) == (mode & 0o100 != 0)) by (bit_vector);
}

/// A link target that is no longer than the threshold, its home directory
/// abbreviated, is shown as it is; a longer one with four components or more
/// is shown as its first and its last component with three dots between.
pub proof fn lemma_truncation(path: Seq<char>, home: Seq<char>, term_width: Option<u16>)
    ensures
        byte_len(home_replaced(path, home)) <= threshold(term_width) ==> truncated(
            path,
            home,
            term_width,
        ) == home_replaced(path, home),
        byte_len(home_replaced(path, home)) > threshold(term_width) && components(
            home_replaced(path, home),
        ) >= 4 ==> truncated(path, home, term_width) == first_component(
            home_replaced(path, home),
        ) + "/.../"@ + after_last(home_replaced(path, home), '/'),
        home.len() == 0 ==> home_replaced(path, home) == path,
{
}

/// The plain text of a header label is the label.
proof fn lemma_header_plain(label: Seq<char>)
    requires
        plain(label),
    ensures
        strip_ansi(header_text(label)) == label,
{
    lemma_strip_truecolor(label, (196, 167, 231));
}

/// The first row of a listing's table is the header, and its first three
/// cells read `Name`, `Size` and `Mode`.
pub proof fn lemma_header_first(records: Seq<Record>, home: Seq<char>, term_width: Option<u16>)
    ensures
        ls_rows(records, home, term_width).len() == records.len() + 1,
        ls_rows(records, home, term_width)[0] == header_row(
            any_link(records),
            any_status(records),
        ),
        strip_ansi(ls_rows(records, home, term_width)[0][0]) == "Name"@,
        strip_ansi(ls_rows(records, home, term_width)[0][1]) == "Size"@,
        strip_ansi(ls_rows(records, home, term_width)[0][2]) == "Mode"@,
{
    reveal_strlit("Name");
    reveal_strlit("Size");
    reveal_strlit("Mode");
    lemma_header_plain("Name"@);
    lemma_header_plain("Size"@);
    lemma_header_plain("Mode"@);
}

/// The header has a cell that reads `Link` exactly where some record is a
/// symbolic link with a target, and a cell that reads `Git` exactly where
/// some record has a version-control status. They stand after the first
/// three, in this order.
pub proof fn lemma_conditional_columns(has_link: bool, has_git: bool)
    ensures
        header_row(has_link, has_git).len() == 3 + (if has_link {
            1int
        } else {
            0int
        }) + (if has_git {
            1int
        } else {
            0int
        }),
        has_link <==> exists|j: int|
            0 <= j < header_row(has_link, has_git).len() && strip_ansi(
                #[trigger] header_row(has_link, has_git)[j],
            ) == "Link"@,
        has_git <==> exists|j: int|
            0 <= j < header_row(has_link, has_git).len() && strip_ansi(
                #[trigger] header_row(has_link, has_git)[j],
            ) == "Git"@,
        has_link ==> strip_ansi(header_row(has_link, has_git)[3]) == "Link"@,
        has_git ==> strip_ansi(header_row(has_link, has_git).last()) == "Git"@,
{
    reveal_strlit("Name");
    reveal_strlit("Size");
    reveal_strlit("Mode");
    reveal_strlit("Link");
    reveal_strlit("Git");
    lemma_header_plain("Name"@);
    lemma_header_plain("Size"@);
    lemma_header_plain("Mode"@);
    lemma_header_plain("Link"@);
    lemma_header_plain("Git"@);
    let header = header_row(has_link, has_git);
    assert("Name"@[0] != "Link"@[0]);
    assert("Size"@[0] != "Link"@[0]);
    assert("Mode"@[0] != "Link"@[0]);
    assert("Git"@.len() != "Link"@.len());
    assert("Git"@.len() != "Name"@.len());
    if has_link {
        assert(strip_ansi(header[3]) == "Link"@);
    }
    if has_git {
        assert(strip_ansi(header[header.len() - 1]) == "Git"@);
    }
    assert forall|j: int| 0 <= j < header.len() && strip_ansi(#[trigger] header[j])
        == "Link"@ implies has_link by {
        if !has_link {
            if j < 3 {
            } else {
                assert(has_git && header[j] == header_text("Git"@));
            }
        }
    }
    assert forall|j: int| 0 <= j < header.len() && strip_ansi(#[trigger] header[j])
        == "Git"@ implies has_git by {
        if !has_git {
            if j < 3 {
            } else {
                assert(has_link && header[j] == header_text("Link"@));
            }
        }
    }
}

/// In the table of a listing the two rows after the header are those of
/// the directory itself, `.`, and of its parent, `..`, in this order; and
/// every row after the header is that of the record in its place.
pub proof fn lemma_synthetic_rows(
    snapshot: DirSnapshot,
    looked_up: Seq<(char, Seq<char>)>,
    home: Seq<char>,
    term_width: Option<u16>,
)
    ensures
        ls_rows(snapshot.listing(looked_up), home, term_width).len() >= 3,
        snapshot.listing(looked_up)[0].name == "."@,
        snapshot.listing(looked_up)[1].name == ".."@,
        forall|i: int|
            0 <= i < snapshot.listing(looked_up).len() ==> #[trigger] ls_rows(
                snapshot.listing(looked_up),
                home,
                term_width,
            )[i + 1] == row(
                snapshot.listing(looked_up)[i],
                any_link(snapshot.listing(looked_up)),
                any_status(snapshot.listing(looked_up)),
                home,
                term_width,
            ),
{
    snapshot.lemma_synthetic_entries(looked_up);
}

/// The table of a listing has the link column exactly where the directory,
/// its parent or a child is a link whose target could be read.
pub proof fn lemma_link_column(snapshot: DirSnapshot, looked_up: Seq<(char, Seq<char>)>)
    ensures
        any_link(snapshot.listing(looked_up)) <==> (snapshot.own->0.link() is Some
            || snapshot.parent_meta()->0.link() is Some || exists|i: int|
            0 <= i < snapshot.children@.len() && (
            #[trigger] snapshot.children@[i]).meta->0.link() is Some),
{
    let pred = |r: Record| r.symlink is Some;
    let kids = snapshot.children_records(looked_up.skip(2));
    snapshot.lemma_some_record(looked_up, pred);
    snapshot.lemma_synthetic_entries(looked_up);
    if exists|i: int| 0 <= i < snapshot.children@.len() && pred(#[trigger] kids[i]) {
        let i = choose|i: int| 0 <= i < snapshot.children@.len() && pred(#[trigger] kids[i]);
        assert(snapshot.children@[i].meta->0.link() is Some);
    }
    if exists|i: int|
        0 <= i < snapshot.children@.len() && (
        #[trigger] snapshot.children@[i]).meta->0.link() is Some {
        let i = choose|i: int|
            0 <= i < snapshot.children@.len() && (
            #[trigger] snapshot.children@[i]).meta->0.link() is Some;
        assert(pred(kids[i]));
    }
}

/// The table of a listing has the git column exactly where the working
/// tree reports a status for the name of an entry.
pub proof fn lemma_git_column(snapshot: DirSnapshot, looked_up: Seq<(char, Seq<char>)>)
    ensures
        any_status(snapshot.listing(looked_up)) <==> (status_of(snapshot.status_map(), "."@) is Some
            || status_of(snapshot.status_map(), ".."@) is Some || exists|i: int|
            0 <= i < snapshot.children@.len() && status_of(
                snapshot.status_map(),
                (#[trigger] snapshot.children@[i]).display_name(),
            ) is Some),
{
    let pred = |r: Record| r.git_status is Some;
    let kids = snapshot.children_records(looked_up.skip(2));
    snapshot.lemma_some_record(looked_up, pred);
    snapshot.lemma_synthetic_entries(looked_up);
    if exists|i: int| 0 <= i < snapshot.children@.len() && pred(#[trigger] kids[i]) {
        let i = choose|i: int| 0 <= i < snapshot.children@.len() && pred(#[trigger] kids[i]);
        assert(status_of(snapshot.status_map(), snapshot.children@[i].display_name()) is Some);
    }
    if exists|i: int|
        0 <= i < snapshot.children@.len() && status_of(
            snapshot.status_map(),
            (#[trigger] snapshot.children@[i]).display_name(),
        ) is Some {
        let i = choose|i: int|
            0 <= i < snapshot.children@.len() && status_of(
                snapshot.status_map(),
                (#[trigger] snapshot.children@[i]).display_name(),
            ) is Some;
        assert(pred(kids[i]));
    }
}

/// A listing can be rendered: the colour of each of its icons can be read.
pub proof fn lemma_listing_renders(
    snapshot: DirSnapshot,
    list: Seq<Record>,
    looked_up: Seq<(char, Seq<char>)>,
)
    requires
        snapshot.is_listing(list, looked_up),
    ensures
        renderable(list),
{
    snapshot.lemma_listing_icons_parse(looked_up);
}

/// Rows of one width, added to the grid without rows, make the grid of
/// exactly these rows.
pub proof fn lemma_fresh_grid(rows: Seq<Seq<Seq<char>>>, width: nat)
    requires
        rows.len() > 0,
        forall|i: int| 0 <= i < rows.len() ==> (#[trigger] rows[i]).len() == width,
    ensures
        Grid::empty().push_all(rows) == (Grid { rows, columns: width }),
    decreases rows.len(),
{
    let earlier = rows.drop_last();
    let last = rows.last();
    assert(last.len() == width);
    assert(last + blanks(0) =~= last);
    if earlier.len() == 0 {
        assert(Grid::empty().push_all(earlier) == Grid::empty());
        assert(Grid::empty().push(last).rows =~= rows);
    } else {
        assert forall|i: int| 0 <= i < earlier.len() implies (#[trigger] earlier[i]).len()
            == width by {
            assert(earlier[i] == rows[i]);
        }
        lemma_fresh_grid(earlier, width);
        let grid = Grid { rows: earlier, columns: width };
        assert forall|i: int| 0 <= i < earlier.len() implies earlier[i] + blanks(0)
            == #[trigger] earlier[i] by {
            assert(earlier[i] + blanks(0) =~= earlier[i]);
        }
        assert(grid.push(last).rows =~= rows);
    }
}

/// The rows of a listing, rendered into a table without rows, are exactly
/// the rows of that table: one for the header and one for each record.
pub proof fn lemma_fresh_table(records: Seq<Record>, home: Seq<char>, term_width: Option<u16>)
    ensures
        Grid::empty().push_all(ls_rows(records, home, term_width)).rows == ls_rows(
            records,
            home,
            term_width,
        ),
        Grid::empty().push_all(ls_rows(records, home, term_width)).columns == header_row(
            any_link(records),
            any_status(records),
        ).len(),
{
    let rows = ls_rows(records, home, term_width);
    let width = header_row(any_link(records), any_status(records)).len();
    lemma_fresh_grid(rows, width);
}

} // verus!
