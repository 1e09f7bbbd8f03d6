//! The options of the command-line program, as plain values.
use vstd::prelude::*;

use crate::error::Error;
use crate::tag::same_text;

verus! {

/// The options common to every subcommand.
#[derive(Debug, Clone, PartialEq, Eq)]
pub struct WutagOpts {
    /// The directory to start from; the current one when absent.
    pub dir: Option<String>,
    /// Whether to descend below the base directory's own entries.
    pub recursive: bool,
    /// Whether to print without colors.
    pub no_color: bool,
    /// The subcommand.
    pub cmd: WutagCmd,
}

/// Options of `list`.
#[derive(Debug, Clone, PartialEq, Eq)]
pub struct ListOpts {
    /// A glob pattern like `*.png`.
    pub pattern: String,
    /// Whether to show files with no tags.
    pub show_missing: bool,
    /// Whether to print details such as the tag timestamp.
    pub details: bool,
}

/// Options of `set`.
#[derive(Debug, Clone, PartialEq, Eq)]
pub struct SetOpts {
    /// A glob pattern like `*.png`.
    pub pattern: String,
    /// The tags to attach.
    pub tags: Vec<String>,
}

/// Options of `rm`.
#[derive(Debug, Clone, PartialEq, Eq)]
pub struct RmOpts {
    /// A glob pattern like `*.png`.
    pub pattern: String,
    /// The tags to detach.
    pub tags: Vec<String>,
}

/// Options of `clear`.
#[derive(Debug, Clone, PartialEq, Eq)]
pub struct ClearOpts {
    /// A glob pattern like `*.png`.
    pub pattern: String,
    /// Whether to show output and errors.
    pub verbose: bool,
}

/// Options of `search`.
#[derive(Debug, Clone, PartialEq, Eq)]
pub struct SearchOpts {
    /// The tags that a file must all carry.
    pub tags: Vec<String>,
    /// Whether to print bare paths, one per line.
    pub raw: bool,
}

/// Options of `cp`.
#[derive(Debug, Clone, PartialEq, Eq)]
pub struct CpOpts {
    /// The file to copy tags from.
    pub input_path: String,
    /// A glob pattern like `*.png`.
    pub pattern: String,
}

/// Options of `edit`.
#[derive(Debug, Clone, PartialEq, Eq)]
pub struct EditOpts {
    /// A glob pattern like `*.png`.
    pub pattern: String,
    /// The tag to edit.
    pub tag: String,
    /// The color to give the tag, as hex digits.
    pub color: String,
}

/// The shells that completions can be printed for.
#[derive(Debug, Clone, Copy, PartialEq, Eq, Structural)]
pub enum Shell {
    Bash,
    Elvish,
    Fish,
    PowerShell,
    Zsh,
}

/// Options of `print-completions`.
#[derive(Debug, Clone, Copy, PartialEq, Eq, Structural)]
pub struct CompletionsOpts {
    /// The shell to print completions for.
    pub shell: Shell,
}

/// The subcommands.
#[derive(Debug, Clone, PartialEq, Eq)]
pub enum WutagCmd {
    /// Lists the tags of the files that match a pattern.
    List(ListOpts),
    /// Tags the files that match a pattern.
    SetTags(SetOpts),
    /// Removes tags from the files that match a pattern.
    Rm(RmOpts),
    /// Clears all tags of the files that match a pattern.
    Clear(ClearOpts),
    /// Searches for files that carry all of the given tags.
    Search(SearchOpts),
    /// Copies the tags of one file to the files that match a pattern.
    Cp(CpOpts),
    /// Edits a tag of the files that match a pattern.
    Edit(EditOpts),
    /// Prints completions for a shell.
    PrintCompletions(CompletionsOpts),
}

/// What `str::to_lowercase` gives for a text.
pub uninterp spec fn lower_of(s: Seq<char>) -> Seq<char>;

/// Relies on `str::to_lowercase`: the lowercase form of the text, which depends
/// on its characters alone.
#[verifier::external_body]
fn lowercase(s: &str) -> (r: String)
    ensures
        r@ == lower_of(s@),
{
    s.to_lowercase()
}

/// The shell that a lowercase name denotes.
pub open spec fn shell_named(n: Seq<char>) -> Option<Shell> {
    if n == seq!['b', 'a', 's', 'h'] {
        Some(Shell::Bash)
    } else if n == seq!['e', 'l', 'v', 'i', 's', 'h'] {
        Some(Shell::Elvish)
    } else if n == seq!['f', 'i', 's', 'h'] {
        Some(Shell::Fish)
    } else if n == seq!['p', 'o', 'w', 'e', 'r', 's', 'h', 'e', 'l', 'l'] {
        Some(Shell::PowerShell)
    } else if n == seq!['z', 's', 'h'] {
        Some(Shell::Zsh)
    } else {
        None
    }
}

impl Shell {
    /// The shell that an already lowercased name denotes.
    pub fn from_lowercase(n: &str) -> (r: Option<Shell>)
        ensures
            r == shell_named(n@),
    {
        proof {
            reveal_strlit("bash");
            reveal_strlit("elvish");
            reveal_strlit("fish");
            reveal_strlit("powershell");
            reveal_strlit("zsh");
            assert("bash"@ =~= seq!['b', 'a', 's', 'h']);
            assert("elvish"@ =~= seq!['e', 'l', 'v', 'i', 's', 'h']);
            assert("fish"@ =~= seq!['f', 'i', 's', 'h']);
            assert("powershell"@ =~= seq!['p', 'o', 'w', 'e', 'r', 's', 'h', 'e', 'l', 'l']);
            assert("zsh"@ =~= seq!['z', 's', 'h']);
        }
        if same_text(n, "bash") {
            Some(Shell::Bash)
        } else if same_text(n, "elvish") {
            Some(Shell::Elvish)
        } else if same_text(n, "fish") {
            Some(Shell::Fish)
        } else if same_text(n, "powershell") {
            Some(Shell::PowerShell)
        } else if same_text(n, "zsh") {
            Some(Shell::Zsh)
        } else {
            None
        }
    }

    /// The shell that a name denotes, in any case; `InvalidShell` with the
    /// name as given when it denotes none.
    pub fn parse(s: &str) -> (r: Result<Shell, Error>)
        ensures
            match shell_named(lower_of(s@)) {
                Some(sh) => r == Ok::<Shell, Error>(sh),
                None => r matches Err(Error::InvalidShell(m)) && m@ == s@,
            },
    {
        let lower = lowercase(s);
        match Shell::from_lowercase(lower.as_str()) {
            Some(sh) => Ok(sh),
            None => Err(Error::InvalidShell(String::from_str(s))),
        }
    }
}

impl std::str::FromStr for Shell {
    type Err = Error;

    fn from_str(s: &str) -> Result<Shell, Error> {
        Shell::parse(s)
    }
}

} // verus!
