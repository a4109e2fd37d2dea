//! Shells that the backend can be activated in, and the activation lines.

use vstd::prelude::*;
use crate::backend::ShellInitOptions;
use crate::text::{join_spaced, push_joined, push_str, string_of};

verus! {

broadcast use vstd::string::group_string_axioms;

/// A shell that the backend knows.
#[derive(Debug, Clone, Copy, PartialEq, Eq, Hash, Structural)]
pub enum ShellType {
    Bash,
    Zsh,
    Fish,
    PowerShell,
    Cmd,
}

/// Flags of the fnm activation line in a shell profile.
#[derive(Debug, Clone, Copy, PartialEq, Eq, Structural)]
pub struct FnmShellOptions {
    pub use_on_cd: bool,
    pub resolve_engines: bool,
    pub corepack_enabled: bool,
}

/// A shell found on the system.
#[derive(Debug, Clone)]
pub struct ShellInfo {
    pub shell_type: ShellType,
    pub path: Option<String>,
    pub config_file: Option<String>,
    pub is_configured: bool,
}

/// Failures of shell profile handling.
#[derive(Debug)]
pub enum ConfigError {
    FileNotFound(String),
    IoError(String),
    UnsupportedShell,
}

/// What checking a shell's setup found.
#[derive(Debug, Clone)]
pub enum VerificationResult {
    Configured(Option<ShellInitOptions>),
    NotConfigured,
    ConfigFileNotFound,
    FunctionalButNotInConfig,
    Error(String),
}

pub open spec fn shell_name(s: ShellType) -> Seq<char> {
    match s {
        ShellType::Bash => "Bash"@,
        ShellType::Zsh => "Zsh"@,
        ShellType::Fish => "Fish"@,
        ShellType::PowerShell => "PowerShell"@,
        ShellType::Cmd => "Command Prompt"@,
    }
}

pub open spec fn shell_arg(s: ShellType) -> Seq<char> {
    match s {
        ShellType::Bash => "bash"@,
        ShellType::Zsh => "zsh"@,
        ShellType::Fish => "fish"@,
        ShellType::PowerShell => "powershell"@,
        ShellType::Cmd => "cmd"@,
    }
}

/// The selected flags, in a fixed order.
pub open spec fn option_words(o: FnmShellOptions) -> Seq<Seq<char>> {
    (if o.use_on_cd { seq!["--use-on-cd"@] } else { Seq::empty() }) + (if o.resolve_engines {
        seq!["--resolve-engines"@]
    } else {
        Seq::empty()
    }) + (if o.corepack_enabled { seq!["--corepack-enabled"@] } else { Seq::empty() })
}

/// The profile line that activates fnm in shell `s`; empty for a shell
/// that cannot run one.
pub open spec fn init_line(s: ShellType, o: FnmShellOptions) -> Seq<char> {
    let f = if option_words(o).len() == 0 {
        Seq::<char>::empty()
    } else {
        join_spaced(option_words(o)) + seq![' ']
    };
    match s {
        ShellType::Bash => "eval \"$(fnm env "@ + f + "--shell bash)\""@,
        ShellType::Zsh => "eval \"$(fnm env "@ + f + "--shell zsh)\""@,
        ShellType::Fish => "fnm env "@ + f + "--shell fish | source"@,
        ShellType::PowerShell => "fnm env "@ + f + "--shell powershell | Out-String | Invoke-Expression"@,
        ShellType::Cmd => Seq::empty(),
    }
}

impl ShellType {
    pub fn name(&self) -> (r: &'static str)
        ensures
            r@ == shell_name(*self),
    {
        match self {
            ShellType::Bash => "Bash",
            ShellType::Zsh => "Zsh",
            ShellType::Fish => "Fish",
            ShellType::PowerShell => "PowerShell",
            ShellType::Cmd => "Command Prompt",
        }
    }

    /// The name fnm uses for the shell in `--shell`.
    pub fn fnm_shell_arg(&self) -> (r: &'static str)
        ensures
            r@ == shell_arg(*self),
    {
        match self {
            ShellType::Bash => "bash",
            ShellType::Zsh => "zsh",
            ShellType::Fish => "fish",
            ShellType::PowerShell => "powershell",
            ShellType::Cmd => "cmd",
        }
    }

    /// The profile line that activates fnm in this shell.
    pub fn fnm_init_command(&self, options: &FnmShellOptions) -> (r: String)
        ensures
            r@ == init_line(*self, *options),
    {
        let mut flags: Vec<&'static str> = Vec::new();
        if options.use_on_cd {
            flags.push("--use-on-cd");
        }
        if options.resolve_engines {
            flags.push("--resolve-engines");
        }
        if options.corepack_enabled {
            flags.push("--corepack-enabled");
        }
        assert(flags@.map_values(|w: &str| w@) =~= option_words(*options));
        let mut f: Vec<char> = Vec::new();
        if flags.len() > 0 {
            push_joined(&mut f, &flags);
            f.push(' ');
        }
        assert(f@ =~= (if option_words(*options).len() == 0 {
            Seq::<char>::empty()
        } else {
            join_spaced(option_words(*options)) + seq![' ']
        }));
        let (head, tail): (&str, &str) = match self {
            ShellType::Bash => ("eval \"$(fnm env ", "--shell bash)\""),
            ShellType::Zsh => ("eval \"$(fnm env ", "--shell zsh)\""),
            ShellType::Fish => ("fnm env ", "--shell fish | source"),
            ShellType::PowerShell => ("fnm env ", "--shell powershell | Out-String | Invoke-Expression"),
            ShellType::Cmd => {
                return String::new();
            },
        };
        let mut out: Vec<char> = Vec::new();
        push_str(&mut out, head);
        crate::text::push_range(&mut out, &f, 0, f.len());
        assert(f@.subrange(0, f@.len() as int) =~= f@);
        push_str(&mut out, tail);
        string_of(&out)
    }
}

} // verus!
