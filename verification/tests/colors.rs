use colored::control::set_override;
use neols::listing::formatting::print_metadata;
use neols::listing::{list_content, list_default, list_dirs_only, show_name, Entry, EntryKind};
use neols::options::CliOptions;

fn entry(name: &str, kind: EntryKind) -> Entry {
    Entry { name: name.to_string(), kind, size: 2_000_000_000, readonly: false }
}

#[test]
fn a_directory_is_bold_blue() {
    set_override(true);
    assert_eq!(show_name(&entry("src", EntryKind::Directory)), "\x1b[1;34msrc\x1b[0m");
}

#[test]
fn a_symbolic_link_is_bold_magenta() {
    set_override(true);
    assert_eq!(show_name(&entry("latest", EntryKind::Symlink)), "\x1b[1;35mlatest\x1b[0m");
}

#[test]
fn a_style_inside_a_name_does_not_end_the_style_around_it() {
    set_override(true);
    let cell = show_name(&entry("a\x1b[0mb\x1b[0m", EntryKind::Directory));
    assert_eq!(cell, "\x1b[1;34ma\x1b[0m\x1b[1;34mb\x1b[0m\x1b[1;34m\x1b[0m");
}

#[test]
fn an_empty_name_is_still_wrapped() {
    set_override(true);
    assert_eq!(show_name(&entry("", EntryKind::Symlink)), "\x1b[1;35m\x1b[0m");
}

#[test]
fn the_read_only_flag_is_red_and_the_size_yellow() {
    set_override(true);
    let text = print_metadata(true, 1000);
    assert_eq!(text, "\x1b[31m  Yes    \x1b[0m\x1b[33m1K \x1b[0m  ");
}

#[test]
fn the_writable_flag_is_green() {
    set_override(true);
    let text = print_metadata(false, 2_000_000_000);
    assert_eq!(text, "\x1b[32m  No     \x1b[0m\x1b[33m2G \x1b[0m  ");
}

#[test]
fn the_escape_sequences_count_towards_the_width() {
    set_override(true);
    let text = print_metadata(false, 5);
    assert_eq!(text, "\x1b[32m  No     \x1b[0m\x1b[33m5 \x1b[0m   ");
    assert_eq!(text.chars().count(), 32);
}

#[test]
fn the_compact_listing_colours_directories_and_links_only() {
    set_override(true);
    let entries = vec![
        entry("A", EntryKind::Directory),
        entry("b.txt", EntryKind::RegularFile),
        entry("c", EntryKind::Symlink),
    ];
    assert_eq!(list_default(&entries), "\x1b[1;34mA\x1b[0m  b.txt  \x1b[1;35mc\x1b[0m  \n");
    assert_eq!(list_dirs_only(&entries), "\x1b[1;34mA\x1b[0m  \n");
}

#[test]
fn the_long_format_colours_every_column() {
    set_override(true);
    let mut options = CliOptions::new();
    options.long_format = true;
    let text = list_content(vec![entry("A", EntryKind::Directory)], &options);
    let expected = "ReadOnly Size Name\n\
                    \x1b[32m  No     \x1b[0m\x1b[33m2G \x1b[0m  \x1b[1;34mA\x1b[0m  \n";
    assert_eq!(text, Ok(expected.to_string()));
}
