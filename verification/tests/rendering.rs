use colored::control::set_override;
use neols::listing::{
    list_content, list_default, list_dirs_only, list_long_format, long_row_of, show_name, Entry,
    EntryKind,
};
use neols::options::{build_options_from_args, CliError, CliOptions};

fn file(name: &str, size: u64, readonly: bool) -> Entry {
    Entry { name: name.to_string(), kind: EntryKind::RegularFile, size, readonly }
}

fn dir(name: &str) -> Entry {
    Entry { name: name.to_string(), kind: EntryKind::Directory, size: 4096, readonly: false }
}

fn link(name: &str) -> Entry {
    Entry { name: name.to_string(), kind: EntryKind::Symlink, size: 3, readonly: true }
}

fn parsed(list: &[&str]) -> CliOptions {
    build_options_from_args(list.iter().map(|a| a.to_string()).collect()).unwrap()
}

fn home() -> Vec<Entry> {
    vec![file(".hidden", 1, false), file("b.txt", 1_500_000, true), dir("A")]
}

#[test]
fn a_plain_file_is_shown_by_its_name() {
    set_override(true);
    assert_eq!(show_name(&file("notes", 1, false)), "notes");
    set_override(false);
    assert_eq!(show_name(&file("notes", 1, false)), "notes");
}

#[test]
fn without_colour_every_name_is_plain() {
    set_override(false);
    assert_eq!(show_name(&dir("src")), "src");
    assert_eq!(show_name(&link("latest")), "latest");
}

#[test]
fn the_compact_listing_of_nothing_is_an_empty_line() {
    set_override(false);
    assert_eq!(list_default(&vec![]), "\n");
    assert_eq!(list_dirs_only(&vec![]), "\n");
}

#[test]
fn the_compact_listing_puts_two_spaces_behind_every_name() {
    set_override(false);
    let text = list_default(&vec![dir("A"), file("b.txt", 1, false), link("c")]);
    assert_eq!(text, "A  b.txt  c  \n");
}

#[test]
fn the_compact_listing_keeps_the_order_given() {
    set_override(false);
    let text = list_default(&vec![file("z", 1, false), file("a", 1, false)]);
    assert_eq!(text, "z  a  \n");
}

#[test]
fn directories_only_leaves_out_files_and_links() {
    set_override(false);
    let text = list_dirs_only(&vec![dir("A"), file("b.txt", 1, false), link("c"), dir("d")]);
    assert_eq!(text, "A  d  \n");
}

#[test]
fn a_row_is_its_cells_two_spaces_and_a_line_end() {
    assert_eq!(long_row_of("columns ", "name"), "columns name  \n");
    assert_eq!(long_row_of("", ""), "  \n");
}

#[test]
fn the_long_format_of_nothing_is_the_header() {
    set_override(false);
    assert_eq!(list_long_format(&vec![]), "ReadOnly Size Name\n");
}

#[test]
fn the_long_format_has_a_header_and_a_line_for_every_entry() {
    set_override(false);
    let text = list_long_format(&vec![dir("A"), file("b.txt", 1_500_000, true)]);
    let expected = "ReadOnly Size Name\n\
                    \x20 No     4K                     A  \n\
                    \x20 Yes    2M                     b.txt  \n";
    assert_eq!(text, expected);
}

#[test]
fn default_invocation_hides_hidden_entries_and_sorts_by_name() {
    set_override(false);
    let text = list_content(home(), &parsed(&[]));
    assert_eq!(text, Ok("A  b.txt  \n".to_string()));
}

#[test]
fn show_all_lists_hidden_entries_first() {
    set_override(false);
    let text = list_content(home(), &parsed(&["-a"]));
    assert_eq!(text, Ok(".hidden  A  b.txt  \n".to_string()));
}

#[test]
fn reverse_order_lists_from_the_end() {
    set_override(false);
    let text = list_content(home(), &parsed(&["-r"]));
    assert_eq!(text, Ok("b.txt  A  \n".to_string()));
}

#[test]
fn show_all_with_dirs_only_fails_before_any_output() {
    set_override(false);
    assert_eq!(list_content(home(), &parsed(&["-a", "-d"])), Err(CliError::ConfigError));
    assert_eq!(list_content(home(), &parsed(&["-dl"])), Err(CliError::ConfigError));
    assert_eq!(list_content(vec![], &parsed(&["-adl"])), Err(CliError::ConfigError));
}

#[test]
fn show_all_with_long_format_lists_every_entry_in_the_table() {
    set_override(false);
    let text = list_content(home(), &parsed(&["-a", "-l"]));
    let expected = "ReadOnly Size Name\n\
                    \x20 No     1                      .hidden  \n\
                    \x20 No     4K                     A  \n\
                    \x20 Yes    2M                     b.txt  \n";
    assert_eq!(text, Ok(expected.to_string()));
}

#[test]
fn dirs_only_prints_only_the_subdirectory() {
    set_override(false);
    let entries = vec![file("one.txt", 1, false), dir("sub"), file("two.txt", 2, false)];
    let text = list_content(entries, &parsed(&["-d"]));
    assert_eq!(text, Ok("sub  \n".to_string()));
}

#[test]
fn dirs_only_never_shows_hidden_directories() {
    set_override(false);
    let entries = vec![dir(".git"), dir("src"), file("a", 1, false), dir("doc")];
    let text = list_content(entries, &parsed(&["-d", "-r"]));
    assert_eq!(text, Ok("src  doc  \n".to_string()));
}

#[test]
fn grouping_lists_directories_before_files() {
    set_override(false);
    let entries = vec![file("a", 1, false), dir("z"), link("m"), dir("b")];
    let text = list_content(entries.clone(), &parsed(&["-g"]));
    assert_eq!(text, Ok("b  z  a  m  \n".to_string()));
    let text = list_content(entries, &parsed(&["-gr"]));
    assert_eq!(text, Ok("m  a  z  b  \n".to_string()));
}
