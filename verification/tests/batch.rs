use dirlist::batch::{header_line, needs_separator, target_output, ListingRequest, Output};
use dirlist::render::{render_line, Config, FileMeta};
use dirlist::resolve::{resolve_entries, Lookup};

fn config(show_hidden: bool, long_format: bool) -> Config {
    Config { show_hidden, long_format, human_readable: false }
}

fn line(text: &str) -> Output {
    Output::Line(text.to_string())
}

fn listed(names: &[&str]) -> Lookup {
    Lookup::Listed(names.iter().map(|n| Some(n.to_string())).collect())
}

/// What a run over `targets` writes, each entry being shown with the metadata that `meta` gives for its path.
fn run(targets: &[(&str, Lookup)], config: Config, meta: fn(&str) -> Option<FileMeta>) -> Vec<Output> {
    let request = ListingRequest::new(targets.iter().map(|t| t.0.to_string()).collect(), config);
    let num_paths = request.paths().len();
    let mut written = Vec::new();
    for (index, path) in request.paths().iter().enumerate() {
        let found = resolve_entries(path, &targets[index].1, request.config().show_hidden);
        let mut lines = Vec::new();
        for entry in &found.entries {
            let known = if request.config().long_format { meta(&entry.path) } else { None };
            lines.push(render_line(&entry.display_name, &request.config(), known));
        }
        written.extend(target_output(path, index, num_paths, found.diagnostic, &lines));
    }
    written
}

fn no_meta(_path: &str) -> Option<FileMeta> {
    None
}

#[test]
fn request_without_paths_lists_the_current_directory() {
    let request = ListingRequest::new(Vec::new(), config(false, false));
    assert_eq!(request.paths(), &vec![".".to_string()]);
}

#[test]
fn request_keeps_the_paths_in_the_order_given() {
    let given = vec!["b".to_string(), "a".to_string(), "b".to_string()];
    let request = ListingRequest::new(given.clone(), config(true, false));
    assert_eq!(request.paths(), &given);
}

#[test]
fn request_keeps_the_configuration() {
    let settings = Config { show_hidden: true, long_format: false, human_readable: true };
    let request = ListingRequest::new(Vec::new(), settings);
    assert_eq!(request.config(), settings);
}

#[test]
fn header_only_with_several_targets() {
    assert_eq!(header_line("src", 0), None);
    assert_eq!(header_line("src", 1), None);
    assert_eq!(header_line("src", 2), Some("src:".to_string()));
    assert_eq!(header_line("a/b", 7), Some("a/b:".to_string()));
}

#[test]
fn separator_after_every_target_but_the_last() {
    assert!(!needs_separator(0, 1));
    assert!(needs_separator(0, 2));
    assert!(!needs_separator(1, 2));
    assert!(needs_separator(0, 3));
    assert!(needs_separator(1, 3));
    assert!(!needs_separator(2, 3));
}

#[test]
fn separator_at_the_limits() {
    assert!(!needs_separator(0, 0));
    assert!(!needs_separator(5, 3));
    assert!(!needs_separator(usize::MAX, usize::MAX));
    assert!(needs_separator(usize::MAX - 2, usize::MAX));
}

#[test]
fn single_target_has_neither_header_nor_separator() {
    let lines = vec!["a".to_string(), "b".to_string()];
    assert_eq!(target_output("d", 0, 1, None, &lines), vec![line("a"), line("b")]);
}

#[test]
fn first_of_two_targets_has_header_and_separator() {
    let lines = vec!["a".to_string()];
    assert_eq!(target_output("d", 0, 2, None, &lines), vec![line("d:"), line("a"), line("")]);
}

#[test]
fn last_of_two_targets_has_header_only() {
    let lines = vec!["a".to_string()];
    assert_eq!(target_output("e", 1, 2, None, &lines), vec![line("e:"), line("a")]);
}

#[test]
fn diagnostic_follows_the_header() {
    let said = Some("d: gone".to_string());
    assert_eq!(
        target_output("d", 0, 2, said, &Vec::new()),
        vec![line("d:"), Output::Diagnostic("d: gone".to_string()), line("")]
    );
}

#[test]
fn target_without_entries_still_has_its_frame() {
    assert_eq!(target_output("d", 1, 3, None, &Vec::new()), vec![line("d:"), line("")]);
    assert_eq!(target_output("d", 0, 1, None, &Vec::new()), Vec::<Output>::new());
}

#[test]
fn listing_one_directory() {
    let written = run(&[("d", listed(&[".hidden", "Banana", "apple"]))], config(false, false), no_meta);
    assert_eq!(written, vec![line("apple"), line("Banana")]);
}

#[test]
fn listing_one_directory_with_hidden_names() {
    let written = run(&[("d", listed(&[".hidden", "Banana", "apple"]))], config(true, false), no_meta);
    assert_eq!(written, vec![line("."), line(".."), line(".hidden"), line("apple"), line("Banana")]);
}

#[test]
fn listing_in_long_format() {
    fn meta(path: &str) -> Option<FileMeta> {
        match path {
            "d/notes.txt" => Some(FileMeta { mode_bits: 0o100644, size_bytes: 42, modified_secs: 1 }),
            "d/sub" => Some(FileMeta { mode_bits: 0o040755, size_bytes: 4096, modified_secs: 2 }),
            _ => None,
        }
    }
    let written = run(&[("d", listed(&["sub", "notes.txt", "broken"]))], config(false, true), meta);
    assert_eq!(
        written,
        vec![
            line("?????????? ???????? broken"),
            line("-rw-r--r--       42 notes.txt"),
            line("drwxr-xr-x     4096 sub"),
        ]
    );
}

#[test]
fn pseudo_names_show_the_directory_itself_in_long_format() {
    fn meta(path: &str) -> Option<FileMeta> {
        match path {
            "d" => Some(FileMeta { mode_bits: 0o040700, size_bytes: 96, modified_secs: 0 }),
            _ => None,
        }
    }
    let written = run(&[("d", listed(&[]))], config(true, true), meta);
    assert_eq!(written, vec![line("drwx------       96 ."), line("drwx------       96 ..")]);
}

#[test]
fn single_file_among_several_targets() {
    let written = run(
        &[("no/such/file", Lookup::NotDirectory), ("d", listed(&["b", "a"]))],
        config(false, false),
        no_meta,
    );
    assert_eq!(
        written,
        vec![line("no/such/file:"), line("no/such/file"), line(""), line("d:"), line("a"), line("b")]
    );
}

#[test]
fn single_file_in_long_format_keeps_its_path_as_name() {
    fn meta(path: &str) -> Option<FileMeta> {
        match path {
            "some/file" => Some(FileMeta { mode_bits: 0o100755, size_bytes: 7, modified_secs: 0 }),
            _ => None,
        }
    }
    let written = run(&[("some/file", Lookup::NotDirectory)], config(false, true), meta);
    assert_eq!(written, vec![line("-rwxr-xr-x        7 some/file")]);
}

#[test]
fn unreadable_target_among_several() {
    let written = run(
        &[
            ("a", listed(&["x"])),
            ("locked", Lookup::Unreadable("Permission denied (os error 13)".to_string())),
            ("c", listed(&["z", "y"])),
        ],
        config(false, false),
        no_meta,
    );
    assert_eq!(
        written,
        vec![
            line("a:"),
            line("x"),
            line(""),
            line("locked:"),
            Output::Diagnostic("locked: Permission denied (os error 13)".to_string()),
            line(""),
            line("c:"),
            line("y"),
            line("z"),
        ]
    );
}

#[test]
fn targets_are_not_sorted_among_themselves() {
    let written = run(
        &[("z", Lookup::NotDirectory), ("a", Lookup::NotDirectory)],
        config(false, false),
        no_meta,
    );
    assert_eq!(written, vec![line("z:"), line("z"), line(""), line("a:"), line("a")]);
}

#[test]
fn no_paths_given_lists_the_current_directory_without_header() {
    let request = ListingRequest::new(Vec::new(), config(false, false));
    let path = &request.paths()[0];
    let found = resolve_entries(path, &listed(&["b", "a"]), false);
    let lines: Vec<String> =
        found.entries.iter().map(|e| render_line(&e.display_name, &request.config(), None)).collect();
    assert_eq!(found.entries[0].path, "./a");
    assert_eq!(
        target_output(path, 0, request.paths().len(), found.diagnostic, &lines),
        vec![line("a"), line("b")]
    );
}
