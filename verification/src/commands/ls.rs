//! The records of a directory listing: one for the directory, one for its
//! parent, and one for each child, directories first.

use crate::commands::git::{status_of, statuses_by_leaf, ReportedStatus, StatusMap};
use crate::style::color::{color_of_hex, is_hex_color, lemma_hex_color_parses};
use crate::text::{
    after_last, chars_of, last_part_start, leaf_name, leaf_of, lowercase, lowercase_of, same_chars,
};
use vstd::prelude::*;

verus! {

/// The owner's permission bits of a file mode.
pub const USER_PERM: u32 = 0o700;

/// The owner's execute bit of a file mode.
pub const EXECUTABLE: u32 = 0o100;

/// A glyph and its colour in hexadecimal notation. Its view is the pair of
/// the glyph and the colour's text.
#[derive(Debug, Clone, PartialEq, Eq)]
pub struct Icon {
    pub glyph: char,
    pub color: String,
}

impl View for Icon {
    type V = (char, Seq<char>);

    open spec fn view(&self) -> (char, Seq<char>) {
        (self.glyph, self.color@)
    }
}

/// The icon of every directory.
pub open spec fn directory_icon() -> (char, Seq<char>) {
    ('\u{f115}', "#7e8ea8"@)
}

/// The icon of a makefile.
pub open spec fn makefile_icon() -> (char, Seq<char>) {
    ('\u{1c323}', "#393552"@)
}

/// The icon of a JavaScript source file.
pub open spec fn javascript_icon() -> (char, Seq<char>) {
    ('\u{e781}', "#f7df1e"@)
}

/// The extension of a file name: what follows its last dot, in lower case;
/// empty where the name holds no dot.
pub open spec fn extension(name: Seq<char>) -> Seq<char> {
    if name.contains('.') {
        lowercase(after_last(name, '.'))
    } else {
        Seq::empty()
    }
}

/// The extension of the file that `path` leads to: that of its last
/// component; empty where it has none.
pub open spec fn path_extension(path: Seq<char>) -> Seq<char> {
    match leaf_of(path) {
        Some(name) => extension(name),
        None => Seq::empty(),
    }
}

/// The icon that a file's name or extension settles by itself, if it does:
/// the makefile icon for `Makefile` and `makefile`, else the JavaScript icon
/// for the extension `js` in either case, else none.
pub open spec fn fixed_icon_of(name: Seq<char>, ext: Seq<char>) -> Option<(char, Seq<char>)> {
    if name == "Makefile"@ || name == "makefile"@ {
        Some(makefile_icon())
    } else if lowercase(ext) == "js"@ {
        Some(javascript_icon())
    } else {
        None
    }
}

/// The icon of an entry called `name`, with extension `ext`, where the icon
/// database answers `looked_up`: a directory has the directory icon; a file
/// has the icon that its name or extension settles, and otherwise the one
/// from the database.
pub open spec fn chosen_icon(
    name: Seq<char>,
    ext: Seq<char>,
    is_dir: bool,
    looked_up: (char, Seq<char>),
) -> (char, Seq<char>) {
    if is_dir {
        directory_icon()
    } else {
        match fixed_icon_of(name, ext) {
            Some(fixed) => fixed,
            None => looked_up,
        }
    }
}

/// `FileIcon::from` of devicons, on a path given as text: the icon of the
/// crate's dark theme for that path. The crate may look at the disk to see
/// whether the path is a directory, so the icon is not settled by the text
/// alone. Whatever it finds, the colour comes from its tables, where each is
/// a `#` and six hexadecimal digits; and for `./`, which no table holds and
/// which ends in a slash, it answers the directory icon without looking.
#[verifier::external_body]
pub(crate) fn database_icon(path: &str) -> (icon: Icon)
    ensures
        is_hex_color(icon.color@),
        path@ == seq!['.', '/'] ==> icon@ == directory_icon(),
{
    let found = devicons::FileIcon::from(path);
    Icon { glyph: found.icon, color: found.color.to_string() }
}

/// The extension of the file name `name`.
pub fn extension_of(name: &str) -> (ext: String)
    ensures
        ext@ == extension(name@),
{
    let chars = chars_of(name);
    let n = chars.len();
    let start = last_part_start(&chars, n, '.');
    assert(chars@.take(n as int) =~= chars@);
    if start == 0 {
        String::new()
    } else {
        assert(chars@[start - 1] == '.');
        lowercase_of(&chars, start, n)
    }
}

/// The extension of the file that `path` leads to.
pub fn path_extension_of(path: &str) -> (ext: String)
    ensures
        ext@ == path_extension(path@),
{
    match leaf_name(path) {
        Some(name) => extension_of(name.as_str()),
        None => String::new(),
    }
}

/// The icon that `name` or `ext` settles by itself, if it does.
pub fn fixed_icon(name: &str, ext: &str) -> (icon: Option<Icon>)
    ensures
        icon is Some <==> fixed_icon_of(name@, ext@) is Some,
        icon matches Some(i) ==> fixed_icon_of(name@, ext@) == Some(i@),
{
    let n = chars_of(name);
    let e = chars_of(ext);
    let lower = lowercase_of(&e, 0, e.len());
    assert(e@.subrange(0, e.len() as int) =~= e@);
    if same_chars(&n, &chars_of("Makefile")) || same_chars(&n, &chars_of("makefile")) {
        Some(Icon { glyph: '\u{1c323}', color: "#393552".to_owned() })
    } else if same_chars(&chars_of(lower.as_str()), &chars_of("js")) {
        Some(Icon { glyph: '\u{e781}', color: "#f7df1e".to_owned() })
    } else {
        None
    }
}

/// The icon of an entry called `name`, with extension `ext`. Where neither
/// the kind nor the name nor the extension settles it, the icon database is
/// asked for the name in lower case; of its answer only the form of the
/// colour is known here. So the icon is the chosen one for some answer of
/// the database, and the icon itself can stand for that answer.
pub fn extension_icon(name: &str, ext: &str, is_dir: bool) -> (icon: Icon)
    ensures
        is_dir ==> icon@ == directory_icon(),
        !is_dir ==> (fixed_icon_of(name@, ext@) matches Some(fixed) ==> icon@ == fixed),
        is_hex_color(icon@.1),
        icon@ == chosen_icon(name@, ext@, is_dir, icon@),
{
    if is_dir {
        proof {
            reveal_strlit("./");
            assert("./"@ =~= seq!['.', '/']);
        }
        return database_icon("./");
    }
    match fixed_icon(name, ext) {
        Some(icon) => {
            proof {
                lemma_fixed_icons_well_formed();
            }
            icon
        },
        None => {
            let n = chars_of(name);
            let lower = lowercase_of(&n, 0, n.len());
            database_icon(lower.as_str())
        },
    }
}

/// The colours of the icons that this module fixes are well formed.
pub proof fn lemma_fixed_icons_well_formed()
    ensures
        is_hex_color(directory_icon().1),
        is_hex_color(makefile_icon().1),
        is_hex_color(javascript_icon().1),
{
    reveal_strlit("#7e8ea8");
    reveal_strlit("#393552");
    reveal_strlit("#f7df1e");
}

/// Whatever the icon database answers in a well-formed colour, the chosen
/// icon has a colour that can be read.
pub proof fn lemma_chosen_icon_parses(
    name: Seq<char>,
    ext: Seq<char>,
    is_dir: bool,
    looked_up: (char, Seq<char>),
)
    requires
        is_hex_color(looked_up.1),
    ensures
        is_hex_color(chosen_icon(name, ext, is_dir, looked_up).1),
        color_of_hex(chosen_icon(name, ext, is_dir, looked_up).1) is Some,
{
    lemma_fixed_icons_well_formed();
    lemma_hex_color_parses(chosen_icon(name, ext, is_dir, looked_up).1);
}

/// Why a directory could not be listed.
#[derive(Debug, Clone, Copy, PartialEq, Eq)]
pub enum ListError {
    /// The path could not be resolved.
    Path,
    /// The directory could not be enumerated, or the metadata of the
    /// directory, of its parent or of one of its children could not be read.
    Io,
}

/// A path and what the file system reports of it.
#[derive(Debug, Clone, PartialEq, Eq)]
pub struct FileMeta {
    /// The path, as text.
    pub path: String,
    /// The mode of the file that the path leads to, links followed.
    pub mode: u32,
    /// The length in bytes of that file.
    pub size: u64,
    /// Whether that file is a directory.
    pub is_dir: bool,
    /// Whether the path itself is a symbolic link.
    pub is_symlink: bool,
    /// Where the path points as a link, if that could be read.
    pub link_target: Option<String>,
}

impl FileMeta {
    /// Where the path points as a link: its target, if it is a link and the
    /// target could be read.
    pub open spec fn link(&self) -> Option<Seq<char>> {
        if self.is_symlink {
            text_of(self.link_target)
        } else {
            None
        }
    }
}

/// One entry of a listing.
#[derive(Debug, Clone, PartialEq, Eq)]
pub struct DEntry {
    pub user_perm: u32,
    pub size: u64,
    pub name: String,
    pub symlink: Option<String>,
    pub git_status: Option<u32>,
    pub is_dir: bool,
    pub is_exec: bool,
    pub icon: Icon,
}

/// An entry of a listing as a value: the view of a `DEntry`.
pub struct Record {
    pub user_perm: u32,
    pub size: u64,
    pub name: Seq<char>,
    pub symlink: Option<Seq<char>>,
    pub git_status: Option<u32>,
    pub is_dir: bool,
    pub is_exec: bool,
    pub icon: (char, Seq<char>),
}

/// The text of an optional string.
pub open spec fn text_of(s: Option<String>) -> Option<Seq<char>> {
    match s {
        Some(t) => Some(t@),
        None => None,
    }
}

impl View for DEntry {
    type V = Record;

    open spec fn view(&self) -> Record {
        Record {
            user_perm: self.user_perm,
            size: self.size,
            name: self.name@,
            symlink: text_of(self.symlink),
            git_status: self.git_status,
            is_dir: self.is_dir,
            is_exec: self.is_exec,
            icon: self.icon@,
        }
    }
}

/// The records that `list` holds.
pub open spec fn records_of(list: Seq<DEntry>) -> Seq<Record> {
    Seq::new(list.len(), |i: int| list[i]@)
}

/// The record of an entry called `name`, of which the file system reports
/// `meta` and the working tree `statuses`, where the icon database answers
/// `looked_up`. The permission bits are the owner's, and the entry counts as
/// executable by the owner's execute bit alone. A link target is kept only
/// for a path that is itself a link. The extension is that of the path.
pub open spec fn record_of(
    meta: FileMeta,
    name: Seq<char>,
    statuses: Map<Seq<char>, u32>,
    looked_up: (char, Seq<char>),
) -> Record {
    Record {
        user_perm: meta.mode & USER_PERM,
        size: meta.size,
        name,
        symlink: meta.link(),
        git_status: status_of(statuses, name),
        is_dir: meta.is_dir,
        is_exec: meta.mode & EXECUTABLE != 0,
        icon: chosen_icon(name, path_extension(meta.path@), meta.is_dir, looked_up),
    }
}

/// A child of a directory, as enumerating the directory gives it.
#[derive(Debug, Clone, PartialEq, Eq)]
pub struct DirChild {
    /// Its file name; `None` where the name is not text.
    pub name: Option<String>,
    /// Its path and what the file system reports of it; `None` where that
    /// could not be read.
    pub meta: Option<FileMeta>,
}

impl DirChild {
    /// The name under which the child is listed.
    pub open spec fn display_name(&self) -> Seq<char> {
        match self.name {
            Some(n) => n@,
            None => "unknown name"@,
        }
    }
}

/// What was read of a directory and of the working tree around it.
#[derive(Debug, Clone, PartialEq, Eq)]
pub struct DirSnapshot {
    /// The resolved path of the directory and what the file system reports
    /// of it; `None` where that could not be read.
    pub own: Option<FileMeta>,
    /// The same for its parent; the outer `None` where it has no parent.
    pub parent: Option<Option<FileMeta>>,
    /// Its children, in the order in which the file system gave them.
    pub children: Vec<DirChild>,
    /// The status report of the working tree that the directory lies in;
    /// `None` where it lies in none, or the report could not be had.
    pub statuses: Option<Vec<ReportedStatus>>,
}

/// What an attempt to read a directory gave.
#[derive(Debug, Clone, PartialEq, Eq)]
pub enum DirRead {
    /// The path could not be resolved.
    Unresolved,
    /// The path was resolved, but the directory could not be enumerated.
    Unreadable,
    /// The directory was enumerated.
    Listed(DirSnapshot),
}

/// The records that are directories.
pub open spec fn is_directory() -> spec_fn(Record) -> bool {
    |r: Record| r.is_dir
}

/// The records that are not directories.
pub open spec fn is_other() -> spec_fn(Record) -> bool {
    |r: Record| !r.is_dir
}

/// The records of `children`, in their order, where the icon database
/// answers `looked_up[i]` for the child `i`.
pub open spec fn child_records(
    children: Seq<DirChild>,
    statuses: Map<Seq<char>, u32>,
    looked_up: Seq<(char, Seq<char>)>,
) -> Seq<Record> {
    Seq::new(
        children.len(),
        |i: int| record_of(children[i].meta->0, children[i].display_name(), statuses, looked_up[i]),
    )
}

impl DirSnapshot {
    /// What stands for the parent: the directory itself where it has none.
    pub open spec fn parent_meta(&self) -> Option<FileMeta> {
        match self.parent {
            Some(p) => p,
            None => self.own,
        }
    }

    /// The statuses of the working tree, by file name; empty without a
    /// report.
    pub open spec fn status_map(&self) -> Map<Seq<char>, u32> {
        match self.statuses {
            Some(reports) => statuses_by_leaf(reports@),
            None => Map::empty(),
        }
    }

    /// Everything that a listing needs could be read.
    pub open spec fn readable(&self) -> bool {
        &&& self.own is Some
        &&& self.parent_meta() is Some
        &&& forall|i: int|
            0 <= i < self.children@.len() ==> (#[trigger] self.children@[i]).meta is Some
    }

    /// The records of the children, in the order of the snapshot.
    pub open spec fn children_records(&self, looked_up: Seq<(char, Seq<char>)>) -> Seq<Record> {
        child_records(self.children@, self.status_map(), looked_up)
    }

    /// The listing where the icon database answers `looked_up`, first for
    /// the directory, then for its parent, then for each child: the directory
    /// as `.`, its parent as `..`, then the children that are directories,
    /// then the other children, each group in the order of the snapshot.
    pub open spec fn listing(&self, looked_up: Seq<(char, Seq<char>)>) -> Seq<Record> {
        seq![
            record_of(self.own->0, "."@, self.status_map(), looked_up[0]),
            record_of(self.parent_meta()->0, ".."@, self.status_map(), looked_up[1]),
        ] + self.children_records(looked_up.skip(2)).filter(is_directory())
            + self.children_records(looked_up.skip(2)).filter(is_other())
    }

    /// `list` is the listing for the answers `looked_up` of the icon
    /// database, one for each entry, each with a well-formed colour.
    pub open spec fn is_listing(
        &self,
        list: Seq<Record>,
        looked_up: Seq<(char, Seq<char>)>,
    ) -> bool {
        &&& looked_up.len() == self.children@.len() + 2
        &&& forall|k: int| 0 <= k < looked_up.len() ==> is_hex_color((#[trigger] looked_up[k]).1)
        &&& list == self.listing(looked_up)
    }
}

impl DirRead {
    /// The directory was enumerated, and everything that a listing needs
    /// could be read.
    pub open spec fn listable(&self) -> bool {
        self matches DirRead::Listed(snapshot) && snapshot.readable()
    }

    /// `list` is a listing of the directory that was read, for some answers
    /// of the icon database.
    pub open spec fn lists(&self, list: Seq<Record>) -> bool {
        self matches DirRead::Listed(snapshot) && exists|looked_up: Seq<(char, Seq<char>)>|
            #[trigger] snapshot.is_listing(list, looked_up)
    }

    /// The error of a read that is not listable.
    pub open spec fn error(&self) -> ListError {
        match self {
            DirRead::Unresolved => ListError::Path,
            _ => ListError::Io,
        }
    }
}

impl DEntry {
    /// The entry called `name` for the path of `meta`: the record for the
    /// answer that the icon database gave. Of that answer only the form of
    /// the colour is known here; the entry's own icon can stand for it, since
    /// it is that answer wherever the answer counts.
    pub fn from_path(meta: &FileMeta, name: &str, gitmap: &StatusMap) -> (entry: Self)
        ensures
            entry@ == record_of(*meta, name@, gitmap@, entry@.icon),
            is_hex_color(entry@.icon.1),
    {
        let ext = path_extension_of(meta.path.as_str());
        let icon = extension_icon(name, ext.as_str(), meta.is_dir);
        let symlink = if meta.is_symlink {
            match &meta.link_target {
                Some(target) => Some(target.clone()),
                None => None,
            }
        } else {
            None
        };
        Self {
            user_perm: meta.mode & USER_PERM,
            size: meta.size,
            name: name.to_owned(),
            symlink,
            git_status: gitmap.get(name),
            is_dir: meta.is_dir,
            is_exec: (meta.mode & EXECUTABLE) != 0,
            icon,
        }
    }

    /// The entry of a child of the listed directory. A child whose name is
    /// not text is listed as `unknown name`. It fails where the child's
    /// metadata is missing.
    pub fn new(child: &DirChild, gitmap: &StatusMap) -> (out: Result<Self, ListError>)
        ensures
            out is Ok <==> child.meta is Some,
            out matches Err(e) ==> e == ListError::Io,
            out matches Ok(entry) ==> entry@ == record_of(
                child.meta->0,
                child.display_name(),
                gitmap@,
                entry@.icon,
            ) && is_hex_color(entry@.icon.1),
    {
        match &child.meta {
            None => Err(ListError::Io),
            Some(meta) => {
                match &child.name {
                    Some(name) => Ok(Self::from_path(meta, name.as_str(), gitmap)),
                    None => Ok(Self::from_path(meta, "unknown name", gitmap)),
                }
            },
        }
    }

    /// The listing of the directory that `read` was read from. It fails with
    /// `ListError::Path` where the path could not be resolved, and with
    /// `ListError::Io` where the directory could not be enumerated or the
    /// metadata of the directory, of its parent or of a child is missing. A
    /// failure gives no entries at all.
    pub fn read_path(read: &DirRead) -> (out: Result<Vec<Self>, ListError>)
        ensures
            out is Ok <==> read.listable(),
            out matches Err(e) ==> e == read.error(),
            out matches Ok(list) ==> read.lists(records_of(list@)),
    {
        let snapshot = match read {
            DirRead::Unresolved => {
                return Err(ListError::Path);
            },
            DirRead::Unreadable => {
                return Err(ListError::Io);
            },
            DirRead::Listed(snapshot) => snapshot,
        };
        let map = match &snapshot.statuses {
            Some(reports) => StatusMap::from_reports(reports),
            None => StatusMap::new(),
        };
        let n = snapshot.children.len();
        let mut directories: Vec<Self> = Vec::new();
        let mut others: Vec<Self> = Vec::new();
        let ghost mut found: Seq<(char, Seq<char>)> = Seq::empty();
        let mut i: usize = 0;
        proof {
            reveal(Seq::filter);
            let none = child_records(snapshot.children@.take(0), map@, found);
            assert(none =~= Seq::<Record>::empty());
            assert(records_of(directories@) =~= none.filter(is_directory()));
            assert(records_of(others@) =~= none.filter(is_other()));
        }
        while i < n
            invariant
                *read == DirRead::Listed(*snapshot),
                n == snapshot.children.len(),
                i <= n,
                map@ == snapshot.status_map(),
                found.len() == i,
                forall|k: int| 0 <= k < i ==> is_hex_color((#[trigger] found[k]).1),
                forall|k: int| 0 <= k < i ==> (#[trigger] snapshot.children@[k]).meta is Some,
                records_of(directories@) == child_records(
                    snapshot.children@.take(i as int),
                    map@,
                    found,
                ).filter(is_directory()),
                records_of(others@) == child_records(
                    snapshot.children@.take(i as int),
                    map@,
                    found,
                ).filter(is_other()),
            decreases n - i,
        {
            let child = &snapshot.children[i];
            let ghost seen = child_records(snapshot.children@.take(i as int), map@, found);
            match Self::new(child, &map) {
                Err(e) => {
                    return Err(e);
                },
                Ok(entry) => {
                    proof {
                        found = found.push(entry@.icon);
                        let more = child_records(snapshot.children@.take(i + 1), map@, found);
                        assert(more =~= seen.push(entry@));
                        seen.lemma_filter_push(entry@, is_directory());
                        seen.lemma_filter_push(entry@, is_other());
                    }
                    let ghost before_directories = directories@;
                    let ghost before_others = others@;
                    if entry.is_dir {
                        directories.push(entry);
                        assert(records_of(directories@) =~= records_of(before_directories).push(
                            entry@,
                        ));
                    } else {
                        others.push(entry);
                        assert(records_of(others@) =~= records_of(before_others).push(entry@));
                    }
                },
            }
            i = i + 1;
        }
        assert(snapshot.children@.take(n as int) =~= snapshot.children@);
        let ghost first = directories@;
        let ghost second = others@;
        directories.append(&mut others);
        let mut entries = directories;
        let ghost sorted = entries@;
        assert(records_of(sorted) =~= records_of(first) + records_of(second));
        let parent = match &snapshot.parent {
            Some(p) => p,
            None => &snapshot.own,
        };
        let dotdot = match parent {
            None => {
                return Err(ListError::Io);
            },
            Some(meta) => Self::from_path(meta, "..", &map),
        };
        let dot = match &snapshot.own {
            None => {
                return Err(ListError::Io);
            },
            Some(meta) => Self::from_path(meta, ".", &map),
        };
        let ghost looked_up = seq![dot@.icon, dotdot@.icon] + found;
        entries.insert(0, dotdot);
        entries.insert(0, dot);
        proof {
            assert(looked_up.skip(2) =~= found);
            assert(records_of(entries@) =~= seq![dot@, dotdot@] + records_of(sorted));
            assert(records_of(entries@) =~= snapshot.listing(looked_up));
            assert(snapshot.is_listing(records_of(entries@), looked_up));
            assert(read.lists(records_of(entries@)));
        }
        Ok(entries)
    }
}

/// A filter keeps a sequence whose elements all pass it, and empties one of
/// which none does.
proof fn lemma_filter_all_or_none(s: Seq<Record>, pred: spec_fn(Record) -> bool)
    ensures
        (forall|i: int| 0 <= i < s.len() ==> pred(#[trigger] s[i])) ==> s.filter(pred) == s,
        (forall|i: int| 0 <= i < s.len() ==> !pred(#[trigger] s[i])) ==> s.filter(pred)
            == Seq::<Record>::empty(),
    decreases s.len(),
{
    reveal(Seq::filter);
    if s.len() > 0 {
        lemma_filter_all_or_none(s.drop_last(), pred);
        if forall|i: int| 0 <= i < s.len() ==> pred(#[trigger] s[i]) {
            assert forall|i: int| 0 <= i < s.drop_last().len() implies pred(
                #[trigger] s.drop_last()[i],
            ) by {
                assert(pred(s[i]));
            }
            assert(pred(s[s.len() - 1]));
            assert(s.drop_last().push(s.last()) =~= s);
        }
        if forall|i: int| 0 <= i < s.len() ==> !pred(#[trigger] s[i]) {
            assert forall|i: int| 0 <= i < s.drop_last().len() implies !pred(
                #[trigger] s.drop_last()[i],
            ) by {
                assert(!pred(s[i]));
            }
            assert(!pred(s[s.len() - 1]));
        }
    }
}

/// Directories first, then the others, holds each record exactly once.
proof fn lemma_partition_keeps_all(kids: Seq<Record>)
    ensures
        (kids.filter(is_directory()) + kids.filter(is_other())).to_multiset()
            == kids.to_multiset(),
    decreases kids.len(),
{
    broadcast use vstd::seq_lib::to_multiset_build;

    let d = kids.filter(is_directory());
    let o = kids.filter(is_other());
    if kids.len() == 0 {
        reveal(Seq::filter);
        assert(d + o =~= kids);
    } else {
        let rest = kids.drop_last();
        let x = kids.last();
        assert(rest.push(x) =~= kids);
        rest.lemma_filter_push(x, is_directory());
        rest.lemma_filter_push(x, is_other());
        lemma_partition_keeps_all(rest);
        let rd = rest.filter(is_directory());
        let ro = rest.filter(is_other());
        vstd::seq_lib::lemma_multiset_commutative(rd, ro);
        vstd::seq_lib::lemma_multiset_commutative(d, o);
        assert(d.to_multiset().add(o.to_multiset()) =~= rd.to_multiset().add(
            ro.to_multiset(),
        ).insert(x));
        assert(kids.to_multiset() =~= rest.to_multiset().insert(x));
    }
}

impl DirSnapshot {
    /// A listing begins with the directory itself as `.` and its parent as
    /// `..`, whatever the directory holds.
    pub proof fn lemma_synthetic_entries(self, looked_up: Seq<(char, Seq<char>)>)
        ensures
            self.listing(looked_up).len() >= 2,
            self.listing(looked_up)[0] == record_of(
                self.own->0,
                "."@,
                self.status_map(),
                looked_up[0],
            ),
            self.listing(looked_up)[1] == record_of(
                self.parent_meta()->0,
                ".."@,
                self.status_map(),
                looked_up[1],
            ),
            self.listing(looked_up)[0].name == "."@,
            self.listing(looked_up)[1].name == ".."@,
    {
    }

    /// After the first two entries a listing holds the children: each one
    /// exactly once, no directory after an entry that is none, and the
    /// directories, like the others, in the order of the snapshot.
    pub proof fn lemma_children_directories_first(self, looked_up: Seq<(char, Seq<char>)>)
        ensures
            self.listing(looked_up).len() == self.children@.len() + 2,
            self.listing(looked_up).skip(2).to_multiset() == self.children_records(
                looked_up.skip(2),
            ).to_multiset(),
            forall|i: int, j: int|
                2 <= i < j < self.listing(looked_up).len() && (#[trigger] self.listing(
                    looked_up,
                )[j]).is_dir ==> (#[trigger] self.listing(looked_up)[i]).is_dir,
            self.listing(looked_up).skip(2).filter(is_directory()) == self.children_records(
                looked_up.skip(2),
            ).filter(is_directory()),
            self.listing(looked_up).skip(2).filter(is_other()) == self.children_records(
                looked_up.skip(2),
            ).filter(is_other()),
    {
        broadcast use vstd::seq_lib::to_multiset_len;

        let listing = self.listing(looked_up);
        let kids = self.children_records(looked_up.skip(2));
        let d = kids.filter(is_directory());
        let o = kids.filter(is_other());
        let rest = listing.skip(2);
        assert(rest =~= d + o);
        lemma_partition_keeps_all(kids);
        assert(rest.len() == kids.len()) by {
            assert(rest.to_multiset().len() == rest.len());
            assert(kids.to_multiset().len() == kids.len());
        }
        assert forall|i: int| 0 <= i < d.len() implies is_directory()(#[trigger] d[i]) by {
            kids.lemma_filter_pred(is_directory(), i);
        }
        assert forall|i: int| 0 <= i < o.len() implies is_other()(#[trigger] o[i]) by {
            kids.lemma_filter_pred(is_other(), i);
        }
        assert forall|i: int, j: int|
            2 <= i < j < listing.len() && (#[trigger] listing[j]).is_dir implies (
            #[trigger] listing[i]).is_dir by {
            assert(listing[j] == rest[j - 2]);
            assert(listing[i] == rest[i - 2]);
            if j - 2 >= d.len() {
                assert(rest[j - 2] == o[j - 2 - d.len()]);
                assert(is_other()(o[j - 2 - d.len()]));
            } else {
                assert(rest[i - 2] == d[i - 2]);
                assert(is_directory()(d[i - 2]));
            }
        }
        Seq::filter_distributes_over_add(d, o, is_directory());
        Seq::filter_distributes_over_add(d, o, is_other());
        lemma_filter_all_or_none(d, is_directory());
        lemma_filter_all_or_none(d, is_other());
        lemma_filter_all_or_none(o, is_directory());
        lemma_filter_all_or_none(o, is_other());
        assert(d + Seq::<Record>::empty() =~= d);
        assert(Seq::<Record>::empty() + o =~= o);
    }

    /// Where the directory and its parent are reported as directories, as a
    /// file system does, no directory of a listing stands after an entry that
    /// is none.
    pub proof fn lemma_directories_first(self, looked_up: Seq<(char, Seq<char>)>)
        requires
            self.own->0.is_dir,
            self.parent_meta()->0.is_dir,
        ensures
            forall|i: int, j: int|
                0 <= i < j < self.listing(looked_up).len() && (#[trigger] self.listing(
                    looked_up,
                )[j]).is_dir ==> (#[trigger] self.listing(looked_up)[i]).is_dir,
    {
        self.lemma_children_directories_first(looked_up);
    }

    /// A record is among the children's part of a listing exactly where it is
    /// the record of a child.
    pub proof fn lemma_children_listed(self, looked_up: Seq<(char, Seq<char>)>, r: Record)
        ensures
            self.listing(looked_up).skip(2).contains(r) <==> self.children_records(
                looked_up.skip(2),
            ).contains(r),
    {
        self.lemma_children_directories_first(looked_up);
        vstd::seq_lib::to_multiset_contains(self.listing(looked_up).skip(2), r);
        vstd::seq_lib::to_multiset_contains(self.children_records(looked_up.skip(2)), r);
    }

    /// Some record of a listing passes `pred` exactly where the record of the
    /// directory, of its parent or of a child does.
    pub proof fn lemma_some_record(
        self,
        looked_up: Seq<(char, Seq<char>)>,
        pred: spec_fn(Record) -> bool,
    )
        ensures
            (exists|j: int|
                0 <= j < self.listing(looked_up).len() && pred(
                    #[trigger] self.listing(looked_up)[j],
                )) <==> (pred(self.listing(looked_up)[0]) || pred(self.listing(looked_up)[1])
                || exists|i: int|
                0 <= i < self.children@.len() && pred(
                    #[trigger] self.children_records(looked_up.skip(2))[i],
                )),
    {
        let listing = self.listing(looked_up);
        let kids = self.children_records(looked_up.skip(2));
        let rest = listing.skip(2);
        self.lemma_synthetic_entries(looked_up);
        if exists|j: int| 0 <= j < listing.len() && pred(#[trigger] listing[j]) {
            let j = choose|j: int| 0 <= j < listing.len() && pred(#[trigger] listing[j]);
            if j >= 2 {
                self.lemma_children_listed(looked_up, listing[j]);
                assert(rest[j - 2] == listing[j]);
                assert(rest.contains(listing[j]));
                let i = choose|i: int| 0 <= i < kids.len() && kids[i] == listing[j];
                assert(pred(kids[i]));
            }
        }
        if exists|i: int| 0 <= i < self.children@.len() && pred(#[trigger] kids[i]) {
            let i = choose|i: int| 0 <= i < self.children@.len() && pred(#[trigger] kids[i]);
            self.lemma_children_listed(looked_up, kids[i]);
            assert(kids.contains(kids[i]));
            let j = choose|j: int| 0 <= j < rest.len() && rest[j] == kids[i];
            assert(listing[j + 2] == kids[i]);
            assert(pred(listing[j + 2]));
        }
    }

    /// Every record of a listing has an icon whose colour can be read, where
    /// the icon database answers in well-formed colours.
    pub proof fn lemma_listing_icons_parse(self, looked_up: Seq<(char, Seq<char>)>)
        requires
            looked_up.len() == self.children@.len() + 2,
            forall|k: int| 0 <= k < looked_up.len() ==> is_hex_color((#[trigger] looked_up[k]).1),
        ensures
            forall|i: int|
                0 <= i < self.listing(looked_up).len() ==> color_of_hex(
                    (#[trigger] self.listing(looked_up)[i]).icon.1,
                ) is Some,
    {
        let listing = self.listing(looked_up);
        let kids = self.children_records(looked_up.skip(2));
        let d = kids.filter(is_directory());
        let o = kids.filter(is_other());
        assert forall|k: int| 0 <= k < kids.len() implies color_of_hex(
            (#[trigger] kids[k]).icon.1,
        ) is Some by {
            assert(is_hex_color(looked_up[k + 2].1));
            lemma_chosen_icon_parses(
                self.children@[k].display_name(),
                path_extension(self.children@[k].meta->0.path@),
                self.children@[k].meta->0.is_dir,
                looked_up.skip(2)[k],
            );
        }
        assert(is_hex_color(looked_up[0].1));
        assert(is_hex_color(looked_up[1].1));
        lemma_chosen_icon_parses(
            "."@,
            path_extension(self.own->0.path@),
            self.own->0.is_dir,
            looked_up[0],
        );
        lemma_chosen_icon_parses(
            ".."@,
            path_extension(self.parent_meta()->0.path@),
            self.parent_meta()->0.is_dir,
            looked_up[1],
        );
        assert forall|i: int| 0 <= i < listing.len() implies color_of_hex(
            (#[trigger] listing[i]).icon.1,
        ) is Some by {
            if i >= 2 + d.len() {
                let x = o[i - 2 - d.len()];
                assert(listing[i] == x);
                assert(o.contains(x));
                kids.lemma_filter_contains_rev(is_other(), x);
                let k = choose|k: int| 0 <= k < kids.len() && kids[k] == x;
                assert(color_of_hex(kids[k].icon.1) is Some);
            } else if i >= 2 {
                let x = d[i - 2];
                assert(listing[i] == x);
                assert(d.contains(x));
                kids.lemma_filter_contains_rev(is_directory(), x);
                let k = choose|k: int| 0 <= k < kids.len() && kids[k] == x;
                assert(color_of_hex(kids[k].icon.1) is Some);
            }
        }
    }
}

impl DirRead {
    /// Every listing of a directory that was read has one entry for the
    /// directory, called `.`, then one for its parent, called `..`, then one
    /// for each child, no directory among these after an entry that is
    /// none; and the colour of each icon can be read.
    pub proof fn lemma_listing_shape(self, list: Seq<Record>)
        requires
            self.lists(list),
        ensures
            self matches DirRead::Listed(snapshot) && list.len() == snapshot.children@.len() + 2,
            list[0].name == "."@,
            list[1].name == ".."@,
            forall|i: int, j: int|
                2 <= i < j < list.len() && (#[trigger] list[j]).is_dir ==> (
                #[trigger] list[i]).is_dir,
            forall|i: int|
                0 <= i < list.len() ==> color_of_hex((#[trigger] list[i]).icon.1) is Some,
    {
        let snapshot = self->Listed_0;
        let looked_up = choose|looked_up: Seq<(char, Seq<char>)>| #[trigger]
            snapshot.is_listing(list, looked_up);
        snapshot.lemma_synthetic_entries(looked_up);
        snapshot.lemma_children_directories_first(looked_up);
        snapshot.lemma_listing_icons_parse(looked_up);
    }
}

} // verus!
