use vstd::prelude::*;

verus! {

/// When to highlight syntax in the output.
#[derive(Debug, Clone, Copy, PartialEq, Eq, Structural)]
pub enum ColorChoice {
    Auto,
    Always,
    Never,
}

/// How the matching files are written out.
#[derive(Debug, Clone, Copy, PartialEq, Eq, Structural)]
pub enum Format {
    /// Only the regions of each file that matched, with context.
    Hunks,
    /// Each file under a header, in a Markdown fence.
    Markdown,
    /// Paths and contents as JSON.
    Json,
    /// One path per line.
    Paths,
    /// The contents one after the other.
    Cat,
    /// One line of metadata per file.
    Find,
}

/// The options of a search.
pub struct SearchArgs {
    pub query: Option<String>,
    pub preset: Vec<String>,
    pub root: String,
    pub output: Option<String>,
    pub line_numbers: bool,
    pub no_headers: bool,
    pub format: Format,
    pub no_ignore: bool,
    pub hidden: bool,
    pub color: ColorChoice,
    pub max_depth: Option<usize>,
    pub context: Option<usize>,
    pub find: bool,
}

/// Whether to highlight: always, never, or where the output is a terminal.
pub open spec fn colors(choice: ColorChoice, to_terminal: bool) -> bool {
    match choice {
        ColorChoice::Always => true,
        ColorChoice::Never => false,
        ColorChoice::Auto => to_terminal,
    }
}

/// Whether to highlight the output, given whether it goes to a terminal.
pub fn use_color(choice: ColorChoice, to_terminal: bool) -> (r: bool)
    ensures
        r == colors(choice, to_terminal),
{
    match choice {
        ColorChoice::Always => true,
        ColorChoice::Never => false,
        ColorChoice::Auto => to_terminal,
    }
}

/// The output format: the metadata listing where it was asked for by flag,
/// the chosen format otherwise.
pub fn output_format(args: &SearchArgs) -> (r: Format)
    ensures
        r == if args.find {
            Format::Find
        } else {
            args.format
        },
{
    if args.find {
        Format::Find
    } else {
        args.format
    }
}

} // verus!
