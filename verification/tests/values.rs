use parallel_disk_usage::ai_instructions::{generate, Fragments};
use parallel_disk_usage::ansi_prefixes::AnsiPrefixes;
use parallel_disk_usage::app::sub::{file_color, is_executable, Color, JsonOutputParam};
use parallel_disk_usage::args::depth::FromStrError as DepthError;
use parallel_disk_usage::args::threads::FromStrError as ThreadsError;
use parallel_disk_usage::args::{column_width_distribution, ColorOption, ColorWhen, ColumnWidthDistribution, Depth, Quantity, Threads};
use parallel_disk_usage::bytes_display_format::BytesDisplayFormat;
use parallel_disk_usage::bytes_format::formatter::{binary, metric};
use parallel_disk_usage::bytes_format::{BytesFormat, Formatter, Output, ParsedValue};
use parallel_disk_usage::coloring::style::{color_to_ansi_codes, style_to_ansi_prefix, Color as TermColor, FontStyle, Style};
use parallel_disk_usage::coloring::{Coloring, ANSI_RESET};
use parallel_disk_usage::data_tree::DataTree;
use parallel_disk_usage::device::{DeviceBoundary, DeviceNumber};
use parallel_disk_usage::fs_tree_builder::device_id::is_same_device;
use parallel_disk_usage::fs_tree_builder::{
    get_device_id, records_link, visit_entry, Operation, Progress, WalkStep,
};
use parallel_disk_usage::get_size::{FileStats, GetApparentSize, GetBlockCount, GetBlockSize, GetSize};
use parallel_disk_usage::text::to_decimal;

#[test]
fn symlink_metadata() {
    assert_eq!(Operation::SymlinkMetadata.name(), "symlink_metadata");
}

#[test]
fn read_directory() {
    assert_eq!(Operation::ReadDirectory.name(), "read_dir");
}

#[test]
fn access_entry() {
    assert_eq!(Operation::AccessEntry.name(), "access entry");
}

#[test]
fn depth_parses_infinity_and_positive_numbers() {
    assert_eq!("inf".parse::<Depth>(), Ok(Depth::Infinite));
    assert_eq!("  inf\n".parse::<Depth>(), Ok(Depth::Infinite));
    assert_eq!(" 12 ".parse::<Depth>(), Ok(Depth::Finite(12)));
    assert_eq!("+7".parse::<Depth>(), Ok(Depth::Finite(7)));
    assert!(matches!("0".parse::<Depth>(), Err(DepthError::InvalidSyntax(_))));
    assert!(matches!("".parse::<Depth>(), Err(DepthError::InvalidSyntax(_))));
    assert!(matches!("-3".parse::<Depth>(), Err(DepthError::InvalidSyntax(_))));
    assert!(matches!("infinite".parse::<Depth>(), Err(DepthError::InvalidSyntax(_))));
    assert!(matches!("18446744073709551616".parse::<Depth>(), Err(DepthError::InvalidSyntax(_))));
    assert_eq!(Depth::Infinite.get(), u64::MAX);
    assert_eq!(Depth::Finite(3).get(), 3);
}

#[test]
fn depth_from_number() {
    assert_eq!(Depth::try_from(5u64), Ok(Depth::Finite(5)));
    assert!(Depth::try_from(0u64).is_err());
}

#[test]
fn threads_parse() {
    assert_eq!("auto".parse::<Threads>(), Ok(Threads::Auto));
    assert_eq!(" max ".parse::<Threads>(), Ok(Threads::Max));
    assert_eq!("4".parse::<Threads>(), Ok(Threads::Fixed(4)));
    assert_eq!("0".parse::<Threads>(), Ok(Threads::Fixed(0)));
    assert!(matches!("many".parse::<Threads>(), Err(ThreadsError::InvalidSyntax(_))));
    assert_eq!(Threads::default(), Threads::Auto);
}

#[test]
fn defaults_of_options() {
    assert_eq!(ColorWhen::default(), ColorWhen::Auto);
    assert_eq!(ColorOption::default(), ColorOption::Auto);
    assert_eq!(Quantity::DEFAULT, Quantity::BlockSize);
    assert_eq!(BytesDisplayFormat::default_value(), "metric");
    assert_eq!(BytesDisplayFormat::PlainNumber.as_ref(), "plain");
    assert_eq!(BytesDisplayFormat::BinaryUnits.as_ref(), "binary");
}

#[test]
fn white_space_around_a_value_is_ignored() {
    assert_eq!("\t 5 \u{3000}".parse::<Depth>(), Ok(Depth::Finite(5)));
    assert_eq!("\n auto\r".parse::<Threads>(), Ok(Threads::Auto));
    assert!(matches!("   ".parse::<Depth>(), Err(DepthError::InvalidSyntax(_))));
}

#[test]
fn formatter_scales() {
    let formatter = Formatter::new(1000);
    assert_eq!(formatter.scale_base(), 1000);
    assert_eq!(formatter.scale(0), 1);
    assert_eq!(formatter.scale(3), 1_000_000_000);
    assert_eq!(binary().scale(2), 1_048_576);
    assert_eq!(metric().scale_base(), 1000);
}

#[test]
fn values_take_the_largest_unit_reached() {
    assert_eq!(metric().parse_value(999), ParsedValue::Small { value: 999 });
    assert_eq!(
        metric().parse_value(1500),
        ParsedValue::Big { value: 1500, unit: 'K', scale: 1000, exponent: 1 },
    );
    assert_eq!(
        binary().parse_value(3 * 1024 * 1024 * 1024),
        ParsedValue::Big { value: 3 * 1024 * 1024 * 1024, unit: 'G', scale: 1024 * 1024 * 1024, exponent: 3 },
    );
    assert_eq!(
        metric().parse_value(u64::MAX),
        ParsedValue::Big { value: u64::MAX, unit: 'P', scale: 1_000_000_000_000_000, exponent: 5 },
    );
    assert_eq!(BytesFormat::PlainNumber.format(1234), Output::PlainNumber(1234));
    assert_eq!(
        BytesFormat::BinaryUnits.format(2048),
        Output::Units(ParsedValue::Big { value: 2048, unit: 'K', scale: 1024, exponent: 1 }),
    );
    assert_eq!(BytesFormat::MetricUnits.format(12), Output::Units(ParsedValue::Small { value: 12 }));
}

fn plain_font() -> FontStyle {
    FontStyle {
        bold: false,
        dimmed: false,
        italic: false,
        underline: false,
        slow_blink: false,
        rapid_blink: false,
        reverse: false,
        hidden: false,
        strikethrough: false,
    }
}

#[test]
fn styles_become_escape_sequences() {
    let style = Style {
        foreground: Some(TermColor::Blue),
        background: None,
        font_style: FontStyle { bold: true, ..plain_font() },
        underline: None,
    };
    assert_eq!(style_to_ansi_prefix(&style), "\x1b[1;34m");
    let style = Style {
        foreground: Some(TermColor::RGB(1, 2, 3)),
        background: Some(TermColor::Fixed(200)),
        font_style: FontStyle { italic: true, strikethrough: true, ..plain_font() },
        underline: Some(TermColor::Fixed(7)),
    };
    assert_eq!(style_to_ansi_prefix(&style), "\x1b[3;9;38;2;1;2;3;48;5;200;58;5;7m");
    let nothing = Style { foreground: None, background: None, font_style: plain_font(), underline: Some(TermColor::Red) };
    assert_eq!(style_to_ansi_prefix(&nothing), "");
    let mut codes = Vec::new();
    color_to_ansi_codes(&TermColor::BrightWhite, 40, &mut codes);
    assert_eq!(codes, vec!["107".to_string()]);
}

#[test]
fn coloring_gives_leaf_and_directory_prefixes() {
    let tree = DataTree::dir(
        "root".to_string(),
        0,
        vec![DataTree::file("a.txt".to_string(), 1), DataTree::file("b".to_string(), 2)],
    );
    let red = Style { foreground: Some(TermColor::Red), background: None, font_style: plain_font(), underline: None };
    let blue = Style { foreground: Some(TermColor::Blue), ..red };
    let coloring = Coloring::from_tree(
        &tree,
        |name: &String| if name.ends_with(".txt") { Some(red) } else { None },
        Some(blue),
    );
    assert_eq!(coloring.ansi_for("a.txt"), ("\x1b[31m", ANSI_RESET));
    assert_eq!(coloring.ansi_for("b"), ("", ""));
    assert_eq!(coloring.ansi_for("root"), ("\x1b[34m", ANSI_RESET));
}

#[test]
fn numbers_in_decimal() {
    assert_eq!(to_decimal(0), "0");
    assert_eq!(to_decimal(1234567890), "1234567890");
}

#[test]
fn ai_instruction_files_are_generated_and_match() {
    let files = generate("shared\n", &[("FIRST.md", "first\n"), ("docs/SECOND.md", "second\n")]);
    let paths: Vec<&str> = files.iter().map(|file| file.path).collect();
    assert_eq!(paths, vec!["FIRST.md", "docs/SECOND.md"]);
    assert_eq!(files[0].content, "shared\nfirst\n");
    assert_eq!(files[1].content, "shared\nsecond\n");
    let fragments = Fragments(&["shared\n", "second\n"]);
    assert!(fragments.matches(&files[1].content));
    assert!(!fragments.matches("shared\nsecond\nextra"));
    assert!(!fragments.matches("shared\n"));
    assert!(!fragments.matches("shared\nSecond\n"));
    assert!(Fragments(&[]).matches(""));
}

#[test]
fn device_values() {
    assert_eq!(DeviceBoundary::from_one_file_system(true), DeviceBoundary::Stay);
    assert_eq!(DeviceBoundary::from_one_file_system(false), DeviceBoundary::Cross);
    assert_eq!(DeviceNumber::from(42u64), DeviceNumber(42));
    assert_eq!(u64::from(DeviceNumber(7)), 7);
    let root = get_device_id(3);
    assert!(is_same_device(None, get_device_id(9)));
    assert!(is_same_device(Some(root), get_device_id(3)));
    assert!(!is_same_device(Some(root), get_device_id(4)));
}

#[test]
fn sizes_from_metadata() {
    let stats = FileStats { len: 1000, blocks: 3 };
    assert_eq!(GetApparentSize.get_size(&stats), 1000);
    assert_eq!(GetBlockSize.get_size(&stats), 1536);
    assert_eq!(GetBlockCount.get_size(&stats), 3);
    let progress = Progress::<u64>::default();
    assert_eq!(progress.known_items, 0);
    assert_eq!(progress.scanned_total, 0);
}

#[test]
fn sub_program_decisions() {
    assert_eq!(JsonOutputParam::from_cli_flags(false, true, true), None);
    assert_eq!(
        JsonOutputParam::from_cli_flags(true, true, false),
        Some(JsonOutputParam { shared_details: false, shared_summary: true }),
    );
    assert_eq!(file_color(true, true, true), Color::Symlink);
    assert_eq!(file_color(false, true, true), Color::Directory);
    assert_eq!(file_color(false, false, true), Color::Executable);
    assert_eq!(file_color(false, false, false), Color::Normal);
    assert!(is_executable(Some(0o755)));
    assert!(is_executable(Some(0o010)));
    assert!(!is_executable(Some(0o644)));
    assert!(!is_executable(None));
}

#[test]
fn column_widths_from_options() {
    assert_eq!(
        column_width_distribution(None, None, Some(80)),
        ColumnWidthDistribution::Total { width: 80 },
    );
    assert_eq!(
        column_width_distribution(None, None, None),
        ColumnWidthDistribution::Total { width: 150 },
    );
    assert_eq!(
        column_width_distribution(Some(100), None, Some(80)),
        ColumnWidthDistribution::Total { width: 100 },
    );
    assert_eq!(
        column_width_distribution(None, Some(&[30, 50]), Some(80)),
        ColumnWidthDistribution::Components { tree_column_width: 30, bar_column_width: 50 },
    );
}

#[test]
fn fragments_are_written_one_after_another() {
    assert_eq!(Fragments(&["a", "bc", "", "d"]).to_string(), "abcd");
    assert_eq!(Fragments(&[]).to_string(), "");
}

#[test]
fn depth_and_threads_read_back_their_text() {
    for depth in [Depth::Infinite, Depth::Finite(1), Depth::Finite(42), Depth::Finite(u64::MAX)] {
        assert_eq!(depth.to_string().parse::<Depth>(), Ok(depth));
    }
    assert_eq!(Depth::Infinite.to_string(), "inf");
    assert_eq!(Depth::Finite(10).to_string(), "10");
    for threads in [Threads::Auto, Threads::Max, Threads::Fixed(0), Threads::Fixed(8)] {
        assert_eq!(threads.to_string().parse::<Threads>(), Ok(threads));
    }
    assert_eq!(Threads::Auto.to_string(), "auto");
    assert_eq!(Threads::Max.to_string(), "max");
    assert_eq!(Threads::Fixed(16).to_string(), "16");
}

#[test]
fn walk_step_follows_metadata() {
    assert_eq!(visit_entry(None, true, true), WalkStep::Leaf(0));
    assert_eq!(visit_entry(Some(7), false, true), WalkStep::Leaf(7));
    assert_eq!(visit_entry(Some(7), true, false), WalkStep::Leaf(7));
    assert_eq!(visit_entry(Some(4096), true, true), WalkStep::ReadDirectory(4096));
}

#[test]
fn ansi_prefixes_follow_ls_colors() {
    let defaults = AnsiPrefixes::from_ls_colors("");
    assert_eq!(defaults.directory, "\u{1b}[1;34m");
    assert_eq!(defaults.symlink, "\u{1b}[1;36m");
    assert_eq!(defaults.executable, "\u{1b}[1;32m");
    let custom = AnsiPrefixes::from_ls_colors("fi=33:di=04");
    assert_eq!(custom.directory, "\u{1b}[4m");
    assert_eq!(custom.normal, "\u{1b}[33m");
    assert_eq!(custom.executable, "\u{1b}[1;32m");
}

#[test]
fn only_files_of_several_links_are_recorded() {
    assert!(records_link(false, 2));
    assert!(!records_link(false, 1));
    assert!(!records_link(true, 3));
}

#[test]
fn white_space_does_not_change_what_is_read() {
    for text in ["  7 ", "\tinf\n", " 0 ", " x ", "", "  ", " -1"] {
        assert_eq!(text.parse::<Depth>(), text.trim().parse::<Depth>(), "{text:?}");
        assert_eq!(text.parse::<Threads>(), text.trim().parse::<Threads>(), "{text:?}");
    }
    let error = "abc".parse::<std::num::NonZeroU64>().unwrap_err();
    assert_eq!(" abc ".parse::<Depth>(), Err(DepthError::InvalidSyntax(error)));
    let error = "-1".parse::<usize>().unwrap_err();
    assert_eq!("-1".parse::<Threads>(), Err(ThreadsError::InvalidSyntax(error)));
}
