use vstd::prelude::*;

verus! {

/// Template argument for prompt substitution.
#[derive(Debug)]
pub struct Argument {
    /// Parameter name for template substitution.
    pub name: String,
    /// Human-readable description of the parameter.
    pub description: String,
    /// Default value if the parameter is not provided.
    pub default: Option<String>,
}

/// Complete prompt data loaded from a markdown file.
#[derive(Debug)]
pub struct PromptData {
    /// Unique identifier for the prompt.
    pub name: String,
    /// Display title for the prompt.
    pub title: String,
    /// Brief description of the prompt's purpose.
    pub description: String,
    /// Template arguments this prompt accepts.
    pub arguments: Vec<Argument>,
    /// Template content for variable substitution.
    pub content: String,
}

/// The names of the arguments, in order.
pub open spec fn arg_names(args: Seq<Argument>) -> Seq<Seq<char>> {
    args.map_values(|a: Argument| a.name@)
}

} // verus!
