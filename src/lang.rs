//! The closed set of languages a command body can be written in.
use vstd::prelude::*;

verus! {

/// A language that a command body may be written in.
#[derive(Clone, Copy, Debug, PartialEq, Eq, Structural)]
pub enum Lang {
    Shell,
    Bash,
    Rust,
    Python,
    Javascript,
    C,
    Cpp,
    CSharp,
}

/// The language named by a tag of a runfile, if any (tags are case-sensitive).
pub open spec fn lang_of_tag(t: Seq<char>) -> Option<Lang> {
    if t == "cmd"@ || t == "fn"@ || t == "sh"@ || t == "shell"@ {
        Some(Lang::Shell)
    } else if t == "bash"@ {
        Some(Lang::Bash)
    } else if t == "rs"@ || t == "rust"@ {
        Some(Lang::Rust)
    } else if t == "c"@ {
        Some(Lang::C)
    } else if t == "c++"@ || t == "cpp"@ || t == "cplusplus"@ {
        Some(Lang::Cpp)
    } else if t == "c#"@ || t == "cs"@ || t == "csharp"@ {
        Some(Lang::CSharp)
    } else if t == "py"@ || t == "python"@ {
        Some(Lang::Python)
    } else if t == "js"@ || t == "javascript"@ {
        Some(Lang::Javascript)
    } else {
        None
    }
}

/// Whether two strings hold the same characters.
pub fn same_text(a: &str, b: &str) -> (r: bool)
    ensures
        r == (a@ == b@),
{
    let x = a.to_owned();
    let y = b.to_owned();
    x == y
}

/// The language named by `tag`, or `None` when no language has that tag.
pub fn lang_from_tag(tag: &str) -> (r: Option<Lang>)
    ensures
        r == lang_of_tag(tag@),
{
    if same_text(tag, "cmd") || same_text(tag, "fn") || same_text(tag, "sh") || same_text(tag, "shell") {
        Some(Lang::Shell)
    } else if same_text(tag, "bash") {
        Some(Lang::Bash)
    } else if same_text(tag, "rs") || same_text(tag, "rust") {
        Some(Lang::Rust)
    } else if same_text(tag, "c") {
        Some(Lang::C)
    } else if same_text(tag, "c++") || same_text(tag, "cpp") || same_text(tag, "cplusplus") {
        Some(Lang::Cpp)
    } else if same_text(tag, "c#") || same_text(tag, "cs") || same_text(tag, "csharp") {
        Some(Lang::CSharp)
    } else if same_text(tag, "py") || same_text(tag, "python") {
        Some(Lang::Python)
    } else if same_text(tag, "js") || same_text(tag, "javascript") {
        Some(Lang::Javascript)
    } else {
        None
    }
}

impl std::str::FromStr for Lang {
    type Err = String;

    /// Reads a language tag; an unknown tag is handed back as the error.
    fn from_str(s: &str) -> (r: Result<Lang, String>)
        ensures
            lang_of_tag(s@) is Some ==> r == Ok::<Lang, String>(lang_of_tag(s@)->0),
            lang_of_tag(s@) is None ==> r is Err && r->Err_0@ == s@,
    {
        match lang_from_tag(s) {
            Some(l) => Ok(l),
            None => Err(s.to_owned()),
        }
    }
}

impl Lang {
    /// The canonical name of the language.
    pub open spec fn name_of(self) -> Seq<char> {
        match self {
            Lang::Shell => "shell"@,
            Lang::Bash => "bash"@,
            Lang::Rust => "rust"@,
            Lang::Python => "python"@,
            Lang::Javascript => "javascript"@,
            Lang::C => "c"@,
            Lang::Cpp => "c++"@,
            Lang::CSharp => "c#"@,
        }
    }

    /// The executable that the host must provide.
    pub open spec fn binary_of(self) -> Seq<char> {
        match self {
            Lang::Shell => "sh"@,
            Lang::Bash => "bash"@,
            Lang::Rust => "cargo"@,
            Lang::Python => "python3"@,
            Lang::Javascript => "node"@,
            Lang::C => "gcc"@,
            Lang::Cpp => "g++"@,
            Lang::CSharp => "dotnet"@,
        }
    }

    /// The packages asked of the provisioning shell when the executable is missing.
    pub open spec fn packages_of(self) -> Seq<Seq<char>> {
        match self {
            Lang::Shell => seq!["bash"@],
            Lang::Bash => seq!["bash"@],
            Lang::Rust => seq!["cargo"@, "rustc"@],
            Lang::Python => seq!["python3"@],
            Lang::Javascript => seq!["nodejs"@],
            Lang::C => seq!["gcc"@],
            Lang::Cpp => seq!["gcc"@],
            Lang::CSharp => seq!["dotnet-sdk"@],
        }
    }

    /// Whether a body must be compiled into a project before it runs.
    pub open spec fn compiled(self) -> bool {
        match self {
            Lang::Rust | Lang::C | Lang::Cpp | Lang::CSharp => true,
            _ => false,
        }
    }

    pub fn as_str(&self) -> (r: &'static str)
        ensures
            r@ == self.name_of(),
    {
        match self {
            Lang::Shell => "shell",
            Lang::Bash => "bash",
            Lang::Rust => "rust",
            Lang::Python => "python",
            Lang::Javascript => "javascript",
            Lang::C => "c",
            Lang::Cpp => "c++",
            Lang::CSharp => "c#",
        }
    }

    pub fn binary(&self) -> (r: &'static str)
        ensures
            r@ == self.binary_of(),
    {
        match self {
            Lang::Shell => "sh",
            Lang::Bash => "bash",
            Lang::Rust => "cargo",
            Lang::Python => "python3",
            Lang::Javascript => "node",
            Lang::C => "gcc",
            Lang::Cpp => "g++",
            Lang::CSharp => "dotnet",
        }
    }

    pub fn nix_packages(&self) -> (r: Vec<&'static str>)
        ensures
            r@.len() == self.packages_of().len(),
            forall|i: int| 0 <= i < r@.len() ==> (#[trigger] r@[i])@ == self.packages_of()[i],
    {
        match self {
            Lang::Shell | Lang::Bash => vec!["bash"],
            Lang::Rust => vec!["cargo", "rustc"],
            Lang::Python => vec!["python3"],
            Lang::Javascript => vec!["nodejs"],
            Lang::C | Lang::Cpp => vec!["gcc"],
            Lang::CSharp => vec!["dotnet-sdk"],
        }
    }

    pub fn is_compiled(&self) -> (r: bool)
        ensures
            r == self.compiled(),
    {
        match self {
            Lang::Rust | Lang::C | Lang::Cpp | Lang::CSharp => true,
            _ => false,
        }
    }
}

impl Default for Lang {
    fn default() -> (r: Lang)
        ensures
            r == Lang::Shell,
    {
        Lang::Shell
    }
}

} // verus!
