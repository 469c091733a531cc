use neols::options::{arg_already_set, build_options_from_args, CliError, CliOptions};

fn args(list: &[&str]) -> Vec<String> {
    list.iter().map(|a| a.to_string()).collect()
}

fn options(all: bool, long_format: bool, dirs_only: bool) -> CliOptions {
    let mut o = CliOptions::new();
    o.all = all;
    o.long_format = long_format;
    o.dirs_only = dirs_only;
    o
}

#[test]
fn new_has_every_flag_off_and_the_current_directory() {
    let o = CliOptions::new();
    assert!(!o.all);
    assert!(!o.long_format);
    assert!(!o.dirs_only);
    assert!(!o.reverse_sorted);
    assert!(!o.group_by);
    assert_eq!(o.directory, ".");
}

#[test]
fn no_arguments_give_the_defaults() {
    assert_eq!(build_options_from_args(args(&[])), Ok(CliOptions::new()));
}

#[test]
fn each_flag_turns_on_its_option() {
    let o = build_options_from_args(args(&["-a"])).unwrap();
    assert!(o.all && !o.long_format && !o.dirs_only && !o.reverse_sorted && !o.group_by);
    let o = build_options_from_args(args(&["-l"])).unwrap();
    assert!(!o.all && o.long_format && !o.dirs_only && !o.reverse_sorted && !o.group_by);
    let o = build_options_from_args(args(&["-d"])).unwrap();
    assert!(!o.all && !o.long_format && o.dirs_only && !o.reverse_sorted && !o.group_by);
    let o = build_options_from_args(args(&["-r"])).unwrap();
    assert!(!o.all && !o.long_format && !o.dirs_only && o.reverse_sorted && !o.group_by);
    let o = build_options_from_args(args(&["-g"])).unwrap();
    assert!(!o.all && !o.long_format && !o.dirs_only && !o.reverse_sorted && o.group_by);
}

#[test]
fn bundled_flags_equal_separate_flags() {
    let bundled = build_options_from_args(args(&["-al"]));
    let separate = build_options_from_args(args(&["-a", "-l"]));
    assert_eq!(bundled, separate);
    let o = bundled.unwrap();
    assert!(o.all && o.long_format);
    assert!(!o.dirs_only && !o.reverse_sorted && !o.group_by);
}

#[test]
fn all_five_flags_in_one_token() {
    let o = build_options_from_args(args(&["-galdr"])).unwrap();
    assert!(o.all && o.long_format && o.dirs_only && o.reverse_sorted && o.group_by);
    assert_eq!(o.directory, ".");
}

#[test]
fn several_leading_dashes_are_dropped() {
    let o = build_options_from_args(args(&["--r", "---g"])).unwrap();
    assert!(o.reverse_sorted && o.group_by);
    assert!(!o.all && !o.long_format && !o.dirs_only);
}

#[test]
fn dashes_alone_ask_for_nothing() {
    assert_eq!(build_options_from_args(args(&["-", "--"])), Ok(CliOptions::new()));
}

#[test]
fn a_dash_behind_a_letter_is_an_unknown_flag() {
    assert_eq!(
        build_options_from_args(args(&["-a-"])),
        Err(CliError::InvalidArgument("-".to_string()))
    );
}

#[test]
fn the_first_other_argument_is_the_directory() {
    let o = build_options_from_args(args(&["-l", "/tmp/some where"])).unwrap();
    assert_eq!(o.directory, "/tmp/some where");
    assert!(o.long_format);
    let o = build_options_from_args(args(&["src", "-r"])).unwrap();
    assert_eq!(o.directory, "src");
    assert!(o.reverse_sorted);
}

#[test]
fn an_empty_argument_is_a_directory() {
    let o = build_options_from_args(args(&[""])).unwrap();
    assert_eq!(o.directory, "");
}

#[test]
fn a_second_directory_is_refused() {
    assert_eq!(
        build_options_from_args(args(&["one", "two"])),
        Err(CliError::InvalidArgument("two".to_string()))
    );
    assert_eq!(
        build_options_from_args(args(&["one", "bin/neols"])),
        Err(CliError::InvalidArgument("bin/neols".to_string()))
    );
    assert_eq!(
        build_options_from_args(args(&["one", "-a", "one"])),
        Err(CliError::InvalidArgument("one".to_string()))
    );
}

#[test]
fn an_unknown_flag_is_refused() {
    assert_eq!(
        build_options_from_args(args(&["-x"])),
        Err(CliError::InvalidArgument("x".to_string()))
    );
    assert_eq!(
        build_options_from_args(args(&["-lé"])),
        Err(CliError::InvalidArgument("é".to_string()))
    );
    assert_eq!(
        build_options_from_args(args(&["-A"])),
        Err(CliError::InvalidArgument("A".to_string()))
    );
}

#[test]
fn a_flag_given_twice_is_refused() {
    assert_eq!(
        build_options_from_args(args(&["-a", "-a"])),
        Err(CliError::DuplicateArgument('a'))
    );
    assert_eq!(build_options_from_args(args(&["-ll"])), Err(CliError::DuplicateArgument('l')));
    assert_eq!(
        build_options_from_args(args(&["-d", "x", "-rgd"])),
        Err(CliError::DuplicateArgument('d'))
    );
    assert_eq!(build_options_from_args(args(&["--all"])), Err(CliError::DuplicateArgument('l')));
}

#[test]
fn the_first_fault_from_the_left_is_reported() {
    assert_eq!(
        build_options_from_args(args(&["-ax", "-a"])),
        Err(CliError::InvalidArgument("x".to_string()))
    );
    assert_eq!(
        build_options_from_args(args(&["-aa", "-x"])),
        Err(CliError::DuplicateArgument('a'))
    );
    assert_eq!(
        build_options_from_args(args(&["one", "two", "-x"])),
        Err(CliError::InvalidArgument("two".to_string()))
    );
}

#[test]
fn arg_already_set_refuses_a_set_flag() {
    assert_eq!(arg_already_set(true, 'g'), Err(CliError::DuplicateArgument('g')));
    assert_eq!(arg_already_set(false, 'g'), Ok(()));
}

#[test]
fn dirs_only_with_long_format_or_show_all_is_refused() {
    assert_eq!(options(false, true, true).validate_options(), Err(CliError::ConfigError));
    assert_eq!(options(true, false, true).validate_options(), Err(CliError::ConfigError));
    assert_eq!(options(true, true, true).validate_options(), Err(CliError::ConfigError));
}

#[test]
fn every_other_combination_is_accepted() {
    for (all, long_format, dirs_only) in [
        (false, false, false),
        (true, false, false),
        (false, true, false),
        (true, true, false),
        (false, false, true),
    ] {
        let o = options(all, long_format, dirs_only);
        assert_eq!(o.validate_options(), Ok(&o));
    }
}

#[test]
fn reverse_and_grouping_do_not_matter_to_validation() {
    let mut o = options(false, false, true);
    o.reverse_sorted = true;
    o.group_by = true;
    assert_eq!(o.validate_options(), Ok(&o));
    let mut o = options(true, false, true);
    o.reverse_sorted = true;
    o.group_by = true;
    assert_eq!(o.validate_options(), Err(CliError::ConfigError));
}

#[test]
fn parsed_show_all_with_dirs_only_fails_validation() {
    let o = build_options_from_args(args(&["-a", "-d"])).unwrap();
    assert_eq!(o.validate_options(), Err(CliError::ConfigError));
    let o = build_options_from_args(args(&["-dl"])).unwrap();
    assert_eq!(o.validate_options(), Err(CliError::ConfigError));
}

#[test]
fn parsed_show_all_with_long_format_passes_validation() {
    let o = build_options_from_args(args(&["-a", "-l"])).unwrap();
    assert_eq!(o.validate_options(), Ok(&o));
}

#[test]
fn messages_begin_with_the_name_of_the_tool() {
    assert_eq!(
        CliError::InvalidArgument("x".to_string()).message(),
        "neols: Error - Unknown argument: x"
    );
    assert_eq!(
        CliError::DuplicateArgument('a').message(),
        "neols: Error - Argument already set: a"
    );
    assert_eq!(
        CliError::ConfigError.message(),
        "neols: Error - Incompatible arguments: -a, -d and -l"
    );
    assert_eq!(
        CliError::DirectoryNotFound("nowhere".to_string()).message(),
        "neols: Error - No such directory: nowhere"
    );
    assert_eq!(
        CliError::PermissionDenied("/root".to_string()).message(),
        "neols: Error - Permission denied: /root"
    );
}

#[test]
fn a_command_line_is_accepted_exactly_when_it_is_well_formed() {
    let tokens = ["-a", "-l", "-al", "-dr", "-x", "--g", "-", "one", "two"];
    let mut lines: Vec<Vec<&str>> = vec![vec![]];
    for _ in 0..3 {
        let mut longer = Vec::new();
        for line in &lines {
            for token in tokens {
                let mut next = line.clone();
                next.push(token);
                longer.push(next);
            }
        }
        lines.extend(longer);
    }
    for line in lines {
        let letters: String = line
            .iter()
            .filter(|t| t.starts_with('-'))
            .map(|t| t.trim_start_matches('-'))
            .collect();
        let directories: Vec<&str> =
            line.iter().filter(|t| !t.starts_with('-')).copied().collect();
        let known = letters.chars().all(|c| "aldrg".contains(c));
        let once = letters.chars().all(|c| letters.matches(c).count() == 1);
        let parsed = build_options_from_args(args(&line));
        if known && once && directories.len() <= 1 {
            let o = parsed.unwrap();
            assert_eq!(o.all, letters.contains('a'));
            assert_eq!(o.long_format, letters.contains('l'));
            assert_eq!(o.dirs_only, letters.contains('d'));
            assert_eq!(o.reverse_sorted, letters.contains('r'));
            assert_eq!(o.group_by, letters.contains('g'));
            assert_eq!(o.directory, directories.first().copied().unwrap_or("."));
        } else {
            assert!(parsed.is_err());
        }
    }
}
