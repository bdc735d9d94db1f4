use rdump::profiles::{language_extensions, language_name, list_language_profiles, SourceLanguage};
use rdump::config::{compose_query, Config, PresetError};
use rdump::hunk::{Point, Range};
use rdump::options::{output_format, use_color, ColorChoice, Format, SearchArgs};
use rdump::predicates::file_extension;
use rdump::render::{
    file_header, format_mode, format_size, get_contextual_line_ranges, render_fenced_content, render_hunks,
    render_plain_content,
};

fn rows(start: usize, end: usize) -> Range {
    Range {
        start_byte: 0,
        end_byte: 0,
        start_point: Point { row: start, column: 0 },
        end_point: Point { row: end, column: 0 },
    }
}

#[test]
fn modes_read_like_ls() {
    assert_eq!(format_mode(0o644), "-rw-r--r--");
    assert_eq!(format_mode(0o755), "-rwxr-xr-x");
    assert_eq!(format_mode(0), "----------");
    assert_eq!(format_mode(0o100777), "-rwxrwxrwx");
}

#[test]
fn sizes_read_like_people_write_them() {
    assert_eq!(format_size(0), "0B");
    assert_eq!(format_size(1023), "1023B");
    assert_eq!(format_size(1024), "1.0K");
    assert_eq!(format_size(1536), "1.5K");
    assert_eq!(format_size(1280), "1.2K");
    assert_eq!(format_size(1331), "1.3K");
    assert_eq!(format_size(1048576 * 3 / 2), "1.5M");
    assert_eq!(format_size(1073741824), "1.0G");
    assert_eq!(format_size(u64::MAX), "17179869184.0G");
}

#[test]
fn context_ranges_merge_and_clamp() {
    assert!(get_contextual_line_ranges(&vec![], 10, 2).is_empty());
    assert!(get_contextual_line_ranges(&vec![rows(1, 1)], 0, 2).is_empty());
    assert_eq!(get_contextual_line_ranges(&vec![rows(5, 5)], 10, 0), vec![(5, 6)]);
    assert_eq!(get_contextual_line_ranges(&vec![rows(1, 2)], 10, 3), vec![(0, 6)]);
    assert_eq!(get_contextual_line_ranges(&vec![rows(8, 9)], 10, 3), vec![(5, 10)]);
    assert_eq!(
        get_contextual_line_ranges(&vec![rows(7, 7), rows(1, 1), rows(3, 3)], 20, 1),
        vec![(0, 5), (6, 9)]
    );
    assert_eq!(get_contextual_line_ranges(&vec![rows(12, 12)], 10, 1), vec![]);
}

#[test]
fn plain_and_fenced_text() {
    assert_eq!(render_plain_content("a\nb\r\n\nc", false), "a\nb\n\nc\n");
    assert_eq!(render_plain_content("x\ny\n", true), "    1 | x\n    2 | y\n");
    assert_eq!(render_plain_content("", true), "");
    assert_eq!(render_fenced_content("fn f() {}\n", "rs", false), "```rs\nfn f() {}\n```\n");
    let many: String = (0..100000).map(|_| "l\n").collect();
    assert!(render_plain_content(&many, true).ends_with("100000 | l\n"));
}

#[test]
fn hunk_text_fences_each_range() {
    let content = "zero\none\ntwo\nthree\nfour";
    assert_eq!(
        render_hunks(content, "txt", &vec![(0, 2), (3, 9)], true),
        "```txt\n    1 | zero\n    2 | one\n```\n...\n```txt\n    4 | three\n    5 | four\n```\n"
    );
    assert_eq!(render_hunks(content, "", &vec![], false), "");
}

#[test]
fn extensions_of_paths() {
    assert_eq!(file_extension("src/main.rs"), "rs");
    assert_eq!(file_extension(".bashrc"), "");
    assert_eq!(file_extension("a/b.tar.gz"), "gz");
    assert_eq!(file_extension("noext"), "");
    assert_eq!(file_extension("dir/foo.txt/."), "txt");
    assert_eq!(file_extension("dir/foo.txt/./"), "txt");
}

#[test]
fn presets_compose_with_the_query() {
    let mut config = Config::new();
    config.set("rust".to_string(), "ext:rs".to_string());
    config.set("docs".to_string(), "ext:md | ext:txt".to_string());
    let names = vec!["rust".to_string(), "docs".to_string()];
    assert_eq!(
        compose_query(&config, &names, Some("contains:fn".to_string())),
        Ok("(ext:rs) & (ext:md | ext:txt) & contains:fn".to_string())
    );
    assert_eq!(compose_query(&config, &vec!["rust".to_string()], None), Ok("(ext:rs)".to_string()));
    assert_eq!(
        compose_query(&config, &vec!["rust".to_string(), "nope".to_string()], None),
        Err(PresetError::UnknownPreset(1))
    );
    assert_eq!(compose_query(&config, &vec![], None), Err(PresetError::EmptyQuery));
    assert_eq!(compose_query(&config, &vec![], Some("ext:rs".to_string())), Ok("ext:rs".to_string()));
}

#[test]
fn later_presets_override_earlier_ones() {
    let mut global = Config::new();
    global.set("rust".to_string(), "ext:rs".to_string());
    global.set("scripts".to_string(), "ext:sh".to_string());
    let mut local = Config::new();
    local.set("rust".to_string(), "ext:rs & !path:target".to_string());
    global.merge(&local);
    assert_eq!(global.get("rust"), Some("ext:rs & !path:target".to_string()));
    assert_eq!(global.get("scripts"), Some("ext:sh".to_string()));
    global.remove("scripts");
    assert_eq!(global.get("scripts"), None);
    assert_eq!(global.get("missing"), None);
}

#[test]
fn color_and_format_choices() {
    assert!(use_color(ColorChoice::Always, false));
    assert!(!use_color(ColorChoice::Never, true));
    assert!(use_color(ColorChoice::Auto, true));
    assert!(!use_color(ColorChoice::Auto, false));
    let mut args = SearchArgs {
        query: None,
        preset: vec![],
        root: ".".to_string(),
        output: None,
        line_numbers: false,
        no_headers: false,
        format: Format::Paths,
        no_ignore: false,
        hidden: false,
        color: ColorChoice::Auto,
        max_depth: None,
        context: None,
        find: false,
    };
    assert_eq!(output_format(&args), Format::Paths);
    args.find = true;
    assert_eq!(output_format(&args), Format::Find);
}

#[test]
fn test_format_plain_cat_with_line_numbers() {
    let output = render_plain_content("a\nb", true);
    assert_eq!(output, "    1 | a\n    2 | b\n");
}

#[test]
fn test_format_markdown_with_fences() {
    let path = "/tmp/.tmpXYZ";
    let output = file_header(path) + &render_fenced_content("line 1", &file_extension(path), false);
    let expected_header = format!("File: {}\n---\n", path);
    assert!(output.starts_with(&expected_header));
    assert!(output.contains("```\nline 1\n```"));
}

#[test]
fn language_names_and_extensions() {
    assert_eq!(list_language_profiles().len(), 5);
    assert_eq!(language_name(SourceLanguage::JavaScript), "JavaScript");
    assert_eq!(language_extensions(SourceLanguage::JavaScript), vec!["js", "jsx"]);
    assert_eq!(language_extensions(SourceLanguage::Rust), vec!["rs"]);
}

#[test]
fn languages_are_found_by_name_or_extension() {
    assert_eq!(rdump::profiles::language_named("Rust"), Some(SourceLanguage::Rust));
    assert_eq!(rdump::profiles::language_named("JSX"), Some(SourceLanguage::JavaScript));
    assert_eq!(rdump::profiles::language_named("py"), Some(SourceLanguage::Python));
    assert_eq!(rdump::profiles::language_named("cobol"), None);
}
