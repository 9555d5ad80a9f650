use dirlist::render::{decimal, needs_metadata, render_line, size_field, Config, FileMeta};

fn short() -> Config {
    Config { show_hidden: false, long_format: false, human_readable: false }
}

fn long() -> Config {
    Config { show_hidden: false, long_format: true, human_readable: false }
}

fn meta(mode_bits: u32, size_bytes: u64) -> Option<FileMeta> {
    Some(FileMeta { mode_bits, size_bytes, modified_secs: 0 })
}

fn text(n: u64) -> String {
    decimal(n).into_iter().collect()
}

#[test]
fn decimal_digits_of_small_numbers() {
    assert_eq!(text(0), "0");
    assert_eq!(text(7), "7");
    assert_eq!(text(9), "9");
    assert_eq!(text(10), "10");
    assert_eq!(text(42), "42");
}

#[test]
fn decimal_digits_of_large_numbers() {
    assert_eq!(text(1234567890), "1234567890");
    assert_eq!(text(1000000), "1000000");
    assert_eq!(text(u64::MAX), "18446744073709551615");
}

#[test]
fn size_is_right_aligned_to_eight() {
    assert_eq!(size_field(0), "       0");
    assert_eq!(size_field(42), "      42");
    assert_eq!(size_field(1234567), " 1234567");
    assert_eq!(size_field(12345678), "12345678");
}

#[test]
fn wide_size_is_not_cut() {
    assert_eq!(size_field(123456789), "123456789");
    assert_eq!(size_field(u64::MAX), "18446744073709551615");
}

#[test]
fn short_format_is_the_name_alone() {
    assert_eq!(render_line("apple", &short(), None), "apple");
    assert_eq!(render_line("apple", &short(), meta(0o100644, 42)), "apple");
    assert_eq!(render_line("", &short(), None), "");
}

#[test]
fn long_format_of_a_regular_file() {
    assert_eq!(render_line("notes.txt", &long(), meta(0o100644, 42)), "-rw-r--r--       42 notes.txt");
}

#[test]
fn long_format_of_a_directory() {
    assert_eq!(render_line("src", &long(), meta(0o040755, 4096)), "drwxr-xr-x     4096 src");
}

#[test]
fn long_format_with_a_wide_size() {
    assert_eq!(
        render_line("big", &long(), meta(0o100600, 12345678901)),
        "-rw------- 12345678901 big"
    );
}

#[test]
fn long_format_without_metadata() {
    assert_eq!(render_line("gone", &long(), None), "?????????? ???????? gone");
    assert_eq!(render_line("..", &long(), None), "?????????? ???????? ..");
}

#[test]
fn placeholder_columns_line_up_with_real_ones() {
    let known = render_line("x", &long(), meta(0o100644, 1));
    let unknown = render_line("x", &long(), None);
    assert_eq!(known.len(), unknown.len());
    assert_eq!(known.find(" x"), unknown.find(" x"));
}

#[test]
fn human_readable_changes_nothing() {
    let plain = long();
    let scaled = Config { human_readable: true, ..plain };
    for size in [0u64, 1023, 1024, 1048576, 5000000000] {
        assert_eq!(
            render_line("f", &scaled, meta(0o100644, size)),
            render_line("f", &plain, meta(0o100644, size))
        );
    }
    assert_eq!(render_line("f", &scaled, meta(0o100644, 2048)), "-rw-r--r--     2048 f");
    let short_scaled = Config { human_readable: true, ..short() };
    assert_eq!(render_line("f", &short_scaled, meta(0o100644, 2048)), "f");
}

#[test]
fn time_of_change_is_not_shown() {
    let early = Some(FileMeta { mode_bits: 0o100644, size_bytes: 5, modified_secs: 0 });
    let late = Some(FileMeta { mode_bits: 0o100644, size_bytes: 5, modified_secs: 1700000000 });
    assert_eq!(render_line("f", &long(), early), render_line("f", &long(), late));
}

#[test]
fn show_hidden_does_not_change_a_line() {
    let all = Config { show_hidden: true, ..long() };
    assert_eq!(render_line(".x", &all, meta(0o100644, 3)), render_line(".x", &long(), meta(0o100644, 3)));
}

#[test]
fn name_is_shown_as_given() {
    assert_eq!(render_line("a b  c", &long(), meta(0o100644, 1)), "-rw-r--r--        1 a b  c");
    assert_eq!(render_line("dir/sub/file", &long(), meta(0o100644, 1)), "-rw-r--r--        1 dir/sub/file");
    assert_eq!(render_line("\u{e9}t\u{e9}", &short(), None), "\u{e9}t\u{e9}");
}

#[test]
fn metadata_is_needed_in_long_format_only() {
    assert!(needs_metadata(&long()));
    assert!(!needs_metadata(&short()));
    assert!(!needs_metadata(&Config { show_hidden: true, long_format: false, human_readable: true }));
}
