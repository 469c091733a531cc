//! Directory entries and the pipeline that filters, orders and groups them.

pub mod colors;
pub mod filters;
pub mod formatting;
pub mod laws;
pub mod names;
pub mod order;

use crate::listing::colors::{
    bold_blue, bold_magenta, paint_as, paint_bold_blue, paint_bold_magenta,
};
use crate::listing::formatting::{metadata_text, print_metadata};
use crate::listing::names::name_in_order;
use crate::listing::order::{
    in_order, is_stable_sort_of, lemma_in_order_transitive, lemma_insert_keeps_stable_sort,
    lemma_stable_sort_is_sorted_by_name, sorted_by_name,
};
use crate::options::{compatible, CliError, CliOptions, ErrorView, OptionsView};
use vstd::prelude::*;
use vstd::string::StringExecFns;

verus! {

/// What kind of object an entry is.
#[derive(Clone, Copy, Debug, PartialEq, Eq, Structural)]
pub enum EntryKind {
    Directory,
    Symlink,
    RegularFile,
}

/// One object in the listed directory, as read from the file system.
#[derive(Clone, Debug, PartialEq, Eq)]
pub struct Entry {
    /// The name, without the directory that holds it.
    pub name: String,
    pub kind: EntryKind,
    /// The size in bytes.
    pub size: u64,
    pub readonly: bool,
}

/// The mathematical value of an [`Entry`].
pub struct EntryView {
    pub name: Seq<char>,
    pub kind: EntryKind,
    pub size: u64,
    pub readonly: bool,
}

impl View for Entry {
    type V = EntryView;

    open spec fn view(&self) -> EntryView {
        EntryView { name: self.name@, kind: self.kind, size: self.size, readonly: self.readonly }
    }
}

impl DeepView for Entry {
    type V = EntryView;

    open spec fn deep_view(&self) -> EntryView {
        self@
    }
}

impl Entry {
    /// Makes an entry of what could be read of an object in the directory.
    /// An object whose name is no text, or whose kind, size or permissions
    /// could not be read, gives no entry: it is left out of the listing.
    pub fn from_parts(
        name: Option<String>,
        kind: Option<EntryKind>,
        size: Option<u64>,
        readonly: Option<bool>,
    ) -> (r: Option<Entry>)
        ensures
            match r {
                Some(e) => name is Some && kind is Some && size is Some && readonly is Some
                    && e@ == (EntryView {
                    name: name->0@,
                    kind: kind->0,
                    size: size->0,
                    readonly: readonly->0,
                }),
                None => name is None || kind is None || size is None || readonly is None,
            },
    {
        match (name, kind, size, readonly) {
            (Some(name), Some(kind), Some(size), Some(readonly)) => Some(
                Entry { name, kind, size, readonly },
            ),
            _ => None,
        }
    }
}

/// The values of a sequence of entries.
spec fn views(s: Seq<Entry>) -> Seq<EntryView> {
    Seq::new(s.len(), |i: int| s[i]@)
}

/// A hidden entry is one whose name begins with a period.
pub open spec fn is_hidden(name: Seq<char>) -> bool {
    name.len() > 0 && name[0] == '.'
}

/// Selects the entries that are not hidden.
pub open spec fn not_hidden() -> spec_fn(EntryView) -> bool {
    |e: EntryView| !is_hidden(e.name)
}

/// Selects the directories.
pub open spec fn is_directory() -> spec_fn(EntryView) -> bool {
    |e: EntryView| e.kind == EntryKind::Directory
}

/// Selects what is not a directory.
pub open spec fn not_directory() -> spec_fn(EntryView) -> bool {
    |e: EntryView| e.kind != EntryKind::Directory
}

/// The entries of `s` that are not hidden, in their order.
pub open spec fn without_hidden(s: Seq<EntryView>) -> Seq<EntryView> {
    s.filter(not_hidden())
}

/// The directories of `s`, in their order.
pub open spec fn directories(s: Seq<EntryView>) -> Seq<EntryView> {
    s.filter(is_directory())
}

/// The entries of `s` that are not directories, in their order.
pub open spec fn others(s: Seq<EntryView>) -> Seq<EntryView> {
    s.filter(not_directory())
}

/// Directories and other entries kept apart, each part sorted by name:
/// directories first when names run ascending, last when they run descending.
pub open spec fn grouped(s: Seq<EntryView>, descending: bool) -> Seq<EntryView> {
    let dirs = sorted_by_name(directories(s), descending);
    let rest = sorted_by_name(others(s), descending);
    if descending {
        rest + dirs
    } else {
        dirs + rest
    }
}

/// The order in which the options ask for `s` to be shown.
pub open spec fn ordered(s: Seq<EntryView>, o: OptionsView) -> Seq<EntryView> {
    if o.group_by {
        grouped(s, o.reverse_sorted)
    } else {
        sorted_by_name(s, o.reverse_sorted)
    }
}

/// The entries that the options let through: hidden ones only with show-all.
pub open spec fn shown(s: Seq<EntryView>, o: OptionsView) -> Seq<EntryView> {
    if o.all {
        s
    } else {
        without_hidden(s)
    }
}

/// What is listed of `s` under the options `o`, in the order of the listing.
pub open spec fn listing(s: Seq<EntryView>, o: OptionsView) -> Seq<EntryView> {
    ordered(shown(s, o), o)
}

/// Tells whether a name begins with a period.
pub fn is_hidden_name(name: &str) -> (r: bool)
    ensures
        r == is_hidden(name@),
{
    let mut letters = name.chars();
    match letters.next() {
        Some(c) => c == '.',
        None => false,
    }
}

/// Drops the hidden entries when `hidden` says so, and keeps the order of the
/// others.
pub fn get_dirs(entries: Vec<Entry>, hidden: bool) -> (kept: Vec<Entry>)
    ensures
        kept.deep_view() == if hidden {
            without_hidden(entries.deep_view())
        } else {
            entries.deep_view()
        },
{
    if !hidden {
        return entries;
    }
    let mut kept: Vec<Entry> = Vec::new();
    proof {
        reveal(Seq::filter);
    }
    for e in it: entries
        invariant
            it.seq() == entries@,
            views(kept@) == without_hidden(views(entries@.take(it.index() as int))),
    {
        let hide = is_hidden_name(e.name.as_str());
        proof {
            reveal(Seq::filter);
            let k = it.index() as int;
            assert(views(entries@.take(k + 1)).drop_last() =~= views(entries@.take(k)));
        }
        if !hide {
            kept.push(e);
        }
    }
    proof {
        assert(entries@.take(entries@.len() as int) =~= entries@);
        assert(entries.deep_view() =~= views(entries@));
    }
    kept
}

/// Tells whether `a` may stand before `b` in the chosen direction.
pub fn names_in_order(a: &str, b: &str, descending: bool) -> (r: bool)
    ensures
        r == in_order(a@, b@, descending),
{
    if descending {
        name_in_order(b, a)
    } else {
        name_in_order(a, b)
    }
}

/// Sorts the entries by name, ascending or descending. Entries that share a
/// name keep their order.
pub fn sort_by_name(entries: Vec<Entry>, descending: bool) -> (sorted: Vec<Entry>)
    ensures
        sorted.deep_view() == sorted_by_name(entries.deep_view(), descending),
{
    let ghost given = views(entries@);
    let mut sorted = entries;
    let n: usize = sorted.len();
    let mut i: usize = 0;
    proof {
        reveal(Seq::filter);
    }
    while i < n
        invariant
            i <= n,
            sorted.len() == n,
            given.len() == n,
            is_stable_sort_of(views(sorted@).take(i as int), given.take(i as int), descending),
            views(sorted@).skip(i as int) == given.skip(i as int),
        decreases n - i,
    {
        let ghost before = views(sorted@);
        let ghost head = before.take(i as int);
        let e = sorted.remove(i);
        assert(e@ == given[i as int]) by {
            assert(before.skip(i as int)[0] == given.skip(i as int)[0]);
        }
        let mut p: usize = i;
        while p > 0 && !names_in_order(sorted[p - 1].name.as_str(), e.name.as_str(), descending)
            invariant
                p <= i,
                i < n,
                sorted.len() == n - 1,
                views(sorted@).take(i as int) == head,
                forall|k: int|
                    p <= k < i ==> !in_order(#[trigger] head[k].name, e@.name, descending),
            decreases p,
        {
            p -= 1;
        }
        proof {
            assert forall|k: int| 0 <= k < p implies in_order(
                head[k].name,
                e@.name,
                descending,
            ) by {
                if k < p - 1 {
                    lemma_in_order_transitive(
                        head[k].name,
                        head[p - 1].name,
                        e@.name,
                        descending,
                    );
                }
            }
            lemma_insert_keeps_stable_sort(head, given.take(i as int), e@, p as int, descending);
        }
        sorted.insert(p, e);
        proof {
            let now = views(sorted@);
            assert(now.take(i + 1) =~= head.insert(p as int, e@));
            assert(given.take(i + 1) =~= given.take(i as int).push(given[i as int]));
            assert(given.skip(i + 1) =~= given.skip(i as int).skip(1));
        }
        i += 1;
    }
    proof {
        assert(views(sorted@).take(n as int) =~= views(sorted@));
        assert(given.take(n as int) =~= given);
        lemma_stable_sort_is_sorted_by_name(views(sorted@), given, descending);
        assert(entries.deep_view() =~= given);
    }
    sorted
}

/// Keeps directories and other entries apart and sorts each part by name.
/// Directories come first; with reverse order they come last.
pub fn group_by(dirs: Vec<Entry>, options: &CliOptions) -> (arranged: Vec<Entry>)
    ensures
        arranged.deep_view() == grouped(dirs.deep_view(), options.reverse_sorted),
{
    let mut folders: Vec<Entry> = Vec::new();
    let mut files: Vec<Entry> = Vec::new();
    proof {
        reveal(Seq::filter);
    }
    for entry in it: dirs
        invariant
            it.seq() == dirs@,
            views(folders@) == directories(views(dirs@.take(it.index() as int))),
            views(files@) == others(views(dirs@.take(it.index() as int))),
    {
        proof {
            reveal(Seq::filter);
            let k = it.index() as int;
            assert(views(dirs@.take(k + 1)).drop_last() =~= views(dirs@.take(k)));
        }
        match entry.kind {
            EntryKind::Directory => {
                folders.push(entry);
            },
            _ => {
                files.push(entry);
            },
        }
    }
    proof {
        assert(dirs@.take(dirs@.len() as int) =~= dirs@);
        assert(folders.deep_view() =~= views(folders@));
        assert(files.deep_view() =~= views(files@));
        assert(dirs.deep_view() =~= views(dirs@));
    }
    let mut folders = sort_by_name(folders, options.reverse_sorted);
    let mut files = sort_by_name(files, options.reverse_sorted);
    if options.reverse_sorted {
        files.append(&mut folders);
        files
    } else {
        folders.append(&mut files);
        folders
    }
}

/// Puts the entries in the order that the options ask for: sorted by name,
/// descending with reverse order, and grouped by kind on request.
pub fn sort_content(dirs: Vec<Entry>, options: &CliOptions) -> (arranged: Vec<Entry>)
    ensures
        arranged.deep_view() == ordered(dirs.deep_view(), options@),
{
    if options.group_by {
        group_by(dirs, options)
    } else {
        sort_by_name(dirs, options.reverse_sorted)
    }
}

/// Turns the entries read from a directory into the entries to show, in the
/// order in which they are shown.
pub fn process(entries: Vec<Entry>, options: &CliOptions) -> (shown_entries: Vec<Entry>)
    ensures
        shown_entries.deep_view() == listing(entries.deep_view(), options@),
{
    sort_content(get_dirs(entries, !options.all), options)
}

/// Which cells of one entry came back coloured.
pub struct Painting {
    /// The read-only flag of the long format.
    pub flag: bool,
    /// The size of the long format.
    pub size: bool,
    /// The name.
    pub name: bool,
}

/// The name of an entry as it is shown: a directory in bold blue, a symbolic
/// link in bold magenta, where `on` says that the colouring took place;
/// anything else plain.
pub open spec fn shown_name(e: EntryView, on: bool) -> Seq<char> {
    match e.kind {
        EntryKind::Directory => paint_as(e.name, bold_blue(), on),
        EntryKind::Symlink => paint_as(e.name, bold_magenta(), on),
        EntryKind::RegularFile => e.name,
    }
}

/// The names of the entries, each with two spaces behind it.
pub open spec fn compact_cells(entries: Seq<EntryView>, paintings: Seq<Painting>) -> Seq<char>
    decreases entries.len(),
{
    if entries.len() == 0 {
        Seq::empty()
    } else {
        compact_cells(entries.drop_last(), paintings.drop_last()) + shown_name(
            entries.last(),
            paintings.last().name,
        ) + seq![' ', ' ']
    }
}

/// The compact listing: the names on one line, and the end of the line.
pub open spec fn compact_text(entries: Seq<EntryView>, paintings: Seq<Painting>) -> Seq<char> {
    compact_cells(entries, paintings).push('\n')
}

/// The line above the table of the long format.
pub open spec fn long_header() -> Seq<char> {
    "ReadOnly Size Name"@.push('\n')
}

/// One line of the table, made of its cells: the two columns, the name, two
/// spaces and the end of the line.
pub open spec fn row_of_cells(columns: Seq<char>, name: Seq<char>) -> Seq<char> {
    columns + name + seq![' ', ' ', '\n']
}

/// One line of the table.
pub open spec fn long_row(e: EntryView, p: Painting) -> Seq<char> {
    row_of_cells(metadata_text(e.readonly, e.size as nat, p.flag, p.size), shown_name(e, p.name))
}

/// The lines of the table.
pub open spec fn long_rows(entries: Seq<EntryView>, paintings: Seq<Painting>) -> Seq<char>
    decreases entries.len(),
{
    if entries.len() == 0 {
        Seq::empty()
    } else {
        long_rows(entries.drop_last(), paintings.drop_last()) + long_row(
            entries.last(),
            paintings.last(),
        )
    }
}

/// The long format: the header and one line for each entry.
pub open spec fn long_text(entries: Seq<EntryView>, paintings: Seq<Painting>) -> Seq<char> {
    long_header() + long_rows(entries, paintings)
}

/// The entries that get a cell or a line of their own: in directories-only
/// mode the directories, else all.
pub open spec fn rows_of(entries: Seq<EntryView>, o: OptionsView) -> Seq<EntryView> {
    if o.dirs_only {
        directories(entries)
    } else {
        entries
    }
}

/// The text that shows `entries` under the options `o`: the long format on
/// request, else the compact line, which in directories-only mode holds the
/// directories only.
pub open spec fn content_text(
    entries: Seq<EntryView>,
    o: OptionsView,
    paintings: Seq<Painting>,
) -> Seq<char> {
    if !o.dirs_only && o.long_format {
        long_text(entries, paintings)
    } else {
        compact_text(rows_of(entries, o), paintings)
    }
}

/// The name of an entry, coloured after its kind.
pub fn show_name(entry: &Entry) -> (cell: String)
    ensures
        cell@ == shown_name(entry@, false) || cell@ == shown_name(entry@, true),
{
    match entry.kind {
        EntryKind::Directory => paint_bold_blue(entry.name.as_str()),
        EntryKind::Symlink => paint_bold_magenta(entry.name.as_str()),
        EntryKind::RegularFile => entry.name.clone(),
    }
}

/// The compact listing of the entries, in the order given: every name with
/// two spaces behind it, all on one line.
pub fn list_default(entries: &Vec<Entry>) -> (text: String)
    ensures
        exists|paintings: Seq<Painting>|
            paintings.len() == entries.len() && text@ == #[trigger] compact_text(
                entries.deep_view(),
                paintings,
            ),
{
    let mut text = String::new();
    let ghost mut paintings: Seq<Painting> = Seq::empty();
    let ghost all = entries.deep_view();
    for i in 0..entries.len()
        invariant
            all == entries.deep_view(),
            paintings.len() == i,
            text@ == compact_cells(all.take(i as int), paintings),
    {
        let cell = show_name(&entries[i]);
        proof {
            reveal_strlit("  ");
            let on = cell@ != shown_name(entries[i as int]@, false);
            let before = paintings;
            paintings = paintings.push(Painting { flag: false, size: false, name: on });
            assert(paintings.drop_last() =~= before);
            assert(all.take(i + 1).drop_last() =~= all.take(i as int));
        }
        text.append(cell.as_str());
        text.append("  ");
        assert(text@ =~= compact_cells(all.take(i + 1), paintings)) by {
            reveal_strlit("  ");
        }
    }
    text.push('\n');
    proof {
        assert(all.take(entries.len() as int) =~= all);
        assert(text@ == compact_text(entries.deep_view(), paintings));
    }
    text
}

/// Puts the cells of one line of the table together.
pub fn long_row_of(columns: &str, name: &str) -> (row: String)
    ensures
        row@ == row_of_cells(columns@, name@),
{
    let mut row = String::from_str(columns);
    row.append(name);
    row.push(' ');
    row.push(' ');
    row.push('\n');
    row
}

/// The long format of the entries, in the order given: the header, then for
/// each entry the read-only flag, the size and the name.
pub fn list_long_format(entries: &Vec<Entry>) -> (text: String)
    ensures
        exists|paintings: Seq<Painting>|
            paintings.len() == entries.len() && text@ == #[trigger] long_text(
                entries.deep_view(),
                paintings,
            ),
{
    let mut text = String::from_str("ReadOnly Size Name");
    text.push('\n');
    let ghost mut paintings: Seq<Painting> = Seq::empty();
    let ghost all = entries.deep_view();
    for i in 0..entries.len()
        invariant
            all == entries.deep_view(),
            paintings.len() == i,
            text@ == long_header() + long_rows(all.take(i as int), paintings),
    {
        let columns = print_metadata(entries[i].readonly, entries[i].size);
        let cell = show_name(&entries[i]);
        let row = long_row_of(columns.as_str(), cell.as_str());
        proof {
            let e = entries[i as int]@;
            let (flag, size) = choose|flag: bool, size: bool|
                columns@ == metadata_text(e.readonly, e.size as nat, flag, size);
            let name = cell@ != shown_name(e, false);
            let before = paintings;
            let p = Painting { flag, size, name };
            paintings = paintings.push(p);
            assert(paintings.drop_last() =~= before);
            assert(all.take(i + 1).drop_last() =~= all.take(i as int));
        }
        text.append(row.as_str());
        assert(text@ =~= long_header() + long_rows(all.take(i + 1), paintings));
    }
    proof {
        assert(all.take(entries.len() as int) =~= all);
        assert(text@ == long_text(entries.deep_view(), paintings));
    }
    text
}

/// The compact listing of the directories among the entries, in the order
/// given.
pub fn list_dirs_only(entries: &Vec<Entry>) -> (text: String)
    ensures
        exists|paintings: Seq<Painting>|
            paintings.len() == directories(entries.deep_view()).len() && text@
                == #[trigger] compact_text(directories(entries.deep_view()), paintings),
{
    let mut text = String::new();
    let ghost mut paintings: Seq<Painting> = Seq::empty();
    let ghost all = entries.deep_view();
    proof {
        reveal(Seq::filter);
    }
    for i in 0..entries.len()
        invariant
            all == entries.deep_view(),
            paintings.len() == directories(all.take(i as int)).len(),
            text@ == compact_cells(directories(all.take(i as int)), paintings),
    {
        proof {
            reveal(Seq::filter);
            assert(all.take(i + 1).drop_last() =~= all.take(i as int));
        }
        match entries[i].kind {
            EntryKind::Directory => {
                let cell = show_name(&entries[i]);
                proof {
                    let on = cell@ != shown_name(entries[i as int]@, false);
                    let before = paintings;
                    paintings = paintings.push(Painting { flag: false, size: false, name: on });
                    assert(paintings.drop_last() =~= before);
                    let dirs = directories(all.take(i + 1));
                    assert(dirs.drop_last() =~= directories(all.take(i as int)));
                }
                text.append(cell.as_str());
                text.append("  ");
                assert(text@ =~= compact_cells(directories(all.take(i + 1)), paintings)) by {
                    reveal_strlit("  ");
                }
            },
            _ => {},
        }
    }
    text.push('\n');
    proof {
        assert(all.take(entries.len() as int) =~= all);
        assert(text@ == compact_text(directories(entries.deep_view()), paintings));
    }
    text
}

/// The text that shows the entries, in the order given, in the mode that the
/// options choose: the directories alone on one line in directories-only
/// mode, else the table of the long format on request, else all names on one
/// line.
pub fn render(entries: &Vec<Entry>, options: &CliOptions) -> (text: String)
    ensures
        exists|paintings: Seq<Painting>|
            paintings.len() == rows_of(entries.deep_view(), options@).len() && text@
                == #[trigger] content_text(entries.deep_view(), options@, paintings),
{
    let ghost rows = entries.deep_view();
    if options.dirs_only {
        let text = list_dirs_only(entries);
        proof {
            let p = choose|p: Seq<Painting>|
                p.len() == directories(rows).len() && text@ == #[trigger] compact_text(
                    directories(rows),
                    p,
                );
            assert(text@ == content_text(rows, options@, p));
        }
        text
    } else if options.long_format {
        let text = list_long_format(entries);
        proof {
            let p = choose|p: Seq<Painting>|
                p.len() == rows.len() && text@ == #[trigger] long_text(rows, p);
            assert(text@ == content_text(rows, options@, p));
        }
        text
    } else {
        let text = list_default(entries);
        proof {
            let p = choose|p: Seq<Painting>|
                p.len() == rows.len() && text@ == #[trigger] compact_text(rows, p);
            assert(text@ == content_text(rows, options@, p));
        }
        text
    }
}

/// Lists the entries read from a directory as the options ask: checks that
/// the options go together, filters and orders the entries, and writes the
/// text to print. Options that do not go together give the error and no text.
pub fn list_content(entries: Vec<Entry>, options: &CliOptions) -> (r: Result<String, CliError>)
    ensures
        match r {
            Ok(text) => compatible(options@) && exists|paintings: Seq<Painting>|
                paintings.len() == rows_of(listing(entries.deep_view(), options@), options@).len()
                    && text@ == #[trigger] content_text(
                    listing(entries.deep_view(), options@),
                    options@,
                    paintings,
                ),
            Err(e) => !compatible(options@) && e@ == ErrorView::ConfigError,
        },
{
    match options.validate_options() {
        Err(e) => Err(e),
        Ok(options) => {
            let shown_entries = process(entries, options);
            Ok(render(&shown_entries, options))
        },
    }
}

} // verus!
