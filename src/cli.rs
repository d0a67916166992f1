use vstd::prelude::*;

verus! {

/// Syntax of variable references inside a template.
#[derive(Clone, Copy, Debug, PartialEq, Eq, Structural)]
pub enum FormatterType {
    /// References are written `{name}`.
    Brace,
    /// References are written `$name`.
    Dollar,
}

/// Command-line settings of the server.
#[derive(Debug)]
pub struct Cli {
    /// Path to a local folder of markdown files, or a subfolder within the git repository.
    pub folder: Option<String>,
    /// Git repository URL.
    pub git_url: Option<String>,
    /// Directory to cache remote repositories.
    pub cache_dir: String,
    /// Whether to refresh the local cache on startup.
    pub auto_pull: bool,
    /// Template variable format.
    pub variable_format: FormatterType,
    /// Discover template variables as required arguments.
    pub auto_discover_args: bool,
    /// Skip front matter and use the raw markdown content.
    pub skip_frontmatter: bool,
    /// Show the version and exit.
    pub version: bool,
}

} // verus!
