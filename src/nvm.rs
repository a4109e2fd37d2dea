//! The nvm backend and the detection records of both tools.

use vstd::prelude::*;
use crate::backend::{env_texts, texts, BackendError, CommandSpec};
use crate::environment::lead_run;
use crate::version::{parse_version_spec, NodeVersion};
use crate::text::{
    chars_of, equals_range, is_digit, pieces, push_range, push_str, string_of, trim, trim_range,
    word_ranges, words,
};

verus! {

broadcast use vstd::string::group_string_axioms;

/// Where nvm lives.
#[derive(Debug, Clone)]
pub enum NvmEnvironment {
    Unix { nvm_dir: String },
    Windows { nvm_exe: String },
    Wsl { distro: String, nvm_dir: String },
}

/// The nvm backend bound to one environment.
#[derive(Debug, Clone)]
pub struct NvmClient {
    pub environment: NvmEnvironment,
}

/// Which nvm was found.
#[derive(Debug, Clone, Copy, PartialEq, Eq, Structural)]
pub enum NvmVariant {
    Unix,
    Windows,
    NotFound,
}

/// What probing for nvm found.
#[derive(Debug, Clone)]
pub struct NvmDetection {
    pub found: bool,
    pub nvm_dir: Option<String>,
    pub nvm_exe: Option<String>,
    pub version: Option<String>,
    pub variant: NvmVariant,
}

/// What probing for fnm found.
#[derive(Debug, Clone)]
pub struct FnmDetection {
    pub found: bool,
    pub path: Option<String>,
    pub version: Option<String>,
    pub in_path: bool,
    pub fnm_dir: Option<String>,
}

impl NvmClient {
    pub fn unix(nvm_dir: String) -> (r: NvmClient)
        ensures
            r.environment == (NvmEnvironment::Unix { nvm_dir }),
    {
        NvmClient { environment: NvmEnvironment::Unix { nvm_dir } }
    }

    pub fn windows(nvm_exe: String) -> (r: NvmClient)
        ensures
            r.environment == (NvmEnvironment::Windows { nvm_exe }),
    {
        NvmClient { environment: NvmEnvironment::Windows { nvm_exe } }
    }

    pub fn wsl(distro: String, nvm_dir: String) -> (r: NvmClient)
        ensures
            r.environment == (NvmEnvironment::Wsl { distro, nvm_dir }),
    {
        NvmClient { environment: NvmEnvironment::Wsl { distro, nvm_dir } }
    }

    /// Whether this is nvm-windows, whose commands differ.
    pub fn is_windows(&self) -> (r: bool)
        ensures
            r == self.environment is Windows,
    {
        match self.environment {
            NvmEnvironment::Windows { .. } => true,
            _ => false,
        }
    }
}

/// The nvm environment that a detection describes: the Unix directory or
/// the Windows executable it found, or none.
pub fn detect_nvm_environment(detection: &NvmDetection) -> (r: Option<NvmEnvironment>)
    ensures
        match detection.variant {
            NvmVariant::Unix => match detection.nvm_dir {
                Some(d) => r == Some(NvmEnvironment::Unix { nvm_dir: d }),
                None => r is None,
            },
            NvmVariant::Windows => match detection.nvm_exe {
                Some(e) => r == Some(NvmEnvironment::Windows { nvm_exe: e }),
                None => r is None,
            },
            NvmVariant::NotFound => r is None,
        },
{
    match detection.variant {
        NvmVariant::Unix => match &detection.nvm_dir {
            Some(d) => Some(NvmEnvironment::Unix { nvm_dir: d.clone() }),
            None => None,
        },
        NvmVariant::Windows => match &detection.nvm_exe {
            Some(e) => Some(NvmEnvironment::Windows { nvm_exe: e.clone() }),
            None => None,
        },
        NvmVariant::NotFound => None,
    }
}


/// The shell script that loads nvm from `dir` and runs `args`.
pub open spec fn nvm_script(dir: Seq<char>, args: Seq<char>) -> Seq<char> {
    "export NVM_DIR=\""@ + dir + "\"; [ -s \"$NVM_DIR/nvm.sh\" ] && \\. \"$NVM_DIR/nvm.sh\"; "@ + args
}

/// The words of an nvm command line without a leading `nvm`.
pub open spec fn nvm_words(args: Seq<char>) -> Seq<Seq<char>> {
    let ws = words(args);
    if ws.len() > 0 && ws[0] == "nvm"@ {
        ws.drop_first()
    } else {
        ws
    }
}

/// Program, arguments and environment of the nvm command line `args`.
pub open spec fn nvm_command(e: NvmEnvironment, args: Seq<char>) -> (Seq<char>, Seq<Seq<char>>, Seq<(Seq<char>, Seq<char>)>) {
    match e {
        NvmEnvironment::Unix { nvm_dir } => (
            "bash"@,
            seq!["-c"@, nvm_script(nvm_dir@, args)],
            seq![("TERM"@, "dumb"@), ("NO_COLOR"@, "1"@)],
        ),
        NvmEnvironment::Windows { nvm_exe } => (nvm_exe@, nvm_words(args), Seq::empty()),
        NvmEnvironment::Wsl { distro, nvm_dir } => (
            "wsl.exe"@,
            seq!["-d"@, distro@, "--"@, "bash"@, "-c"@, nvm_script(nvm_dir@, args)],
            Seq::empty(),
        ),
    }
}

fn script(dir: &str, args: &str) -> (r: String)
    ensures
        r@ == nvm_script(dir@, args@),
{
    let mut out = chars_of("export NVM_DIR=\"");
    push_str(&mut out, dir);
    push_str(&mut out, "\"; [ -s \"$NVM_DIR/nvm.sh\" ] && \\. \"$NVM_DIR/nvm.sh\"; ");
    push_str(&mut out, args);
    string_of(&out)
}

impl NvmClient {
    /// The process that runs the nvm command line `nvm_args` (such as
    /// `nvm ls-remote`) in this client's environment.
    pub fn command(&self, nvm_args: &str) -> (r: CommandSpec)
        ensures
            (r.program@, texts(r.args@), env_texts(r.env@)) == nvm_command(self.environment, nvm_args@),
    {
        match &self.environment {
            NvmEnvironment::Unix { nvm_dir } => {
                let args = vec!["-c".to_string(), script(nvm_dir.as_str(), nvm_args)];
                let env = vec![("TERM".to_string(), "dumb".to_string()), ("NO_COLOR".to_string(), "1".to_string())];
                assert(texts(args@) =~= seq!["-c"@, nvm_script(nvm_dir@, nvm_args@)]);
                assert(env_texts(env@) =~= seq![("TERM"@, "dumb"@), ("NO_COLOR"@, "1"@)]);
                CommandSpec { program: "bash".to_string(), args, env }
            },
            NvmEnvironment::Windows { nvm_exe } => {
                let cs = chars_of(nvm_args);
                assert(cs@.subrange(0, cs@.len() as int) =~= nvm_args@);
                let ws = word_ranges(&cs, 0, cs.len());
                let ghost wv = words(nvm_args@);
                assert(pieces(cs@, ws@) == wv);
                let nvm = chars_of("nvm");
                let mut start: usize = 0;
                if ws.len() > 0 && crate::text::equals_range(&cs, ws[0].0, ws[0].1, &nvm) {
                    start = 1;
                }
                assert(wv.skip(start as int) =~= nvm_words(nvm_args@)) by {
                    if ws@.len() > 0 {
                        assert(wv[0] == cs@.subrange(ws@[0].0 as int, ws@[0].1 as int));
                    }
                }
                let mut args: Vec<String> = Vec::new();
                let mut i = start;
                while i < ws.len()
                    invariant
                        start <= i <= ws@.len(),
                        pieces(cs@, ws@) == wv,
                        forall|k: int| 0 <= k < ws@.len() ==> (#[trigger] ws@[k]).0 <= ws@[k].1 <= cs@.len(),
                        texts(args@) == wv.subrange(start as int, i as int),
                    decreases ws@.len() - i,
                {
                    let mut w: Vec<char> = Vec::new();
                    push_range(&mut w, &cs, ws[i].0, ws[i].1);
                    let ghost before = args@;
                    assert(w@ =~= cs@.subrange(ws@[i as int].0 as int, ws@[i as int].1 as int));
                    let st = string_of(&w);
                    args.push(st);
                    assert(wv[i as int] == cs@.subrange(ws@[i as int].0 as int, ws@[i as int].1 as int));
                    assert(texts(args@) =~= texts(before).push(st@));
                    assert(texts(args@) =~= wv.subrange(start as int, i + 1));
                    i = i + 1;
                }
                assert(wv.subrange(start as int, ws@.len() as int) =~= wv.skip(start as int));
                let env: Vec<(String, String)> = Vec::new();
                assert(env_texts(env@) =~= Seq::<(Seq<char>, Seq<char>)>::empty());
                CommandSpec { program: nvm_exe.clone(), args, env }
            },
            NvmEnvironment::Wsl { distro, nvm_dir } => {
                let args = vec![
                    "-d".to_string(),
                    distro.clone(),
                    "--".to_string(),
                    "bash".to_string(),
                    "-c".to_string(),
                    script(nvm_dir.as_str(), nvm_args),
                ];
                let env: Vec<(String, String)> = Vec::new();
                assert(texts(args@) =~= seq!["-d"@, distro@, "--"@, "bash"@, "-c"@, nvm_script(nvm_dir@, nvm_args@)]);
                assert(env_texts(env@) =~= Seq::<(Seq<char>, Seq<char>)>::empty());
                CommandSpec { program: "wsl.exe".to_string(), args, env }
            },
        }
    }
}


/// `s` after its last `->`, or all of `s` when it has none.
pub open spec fn after_last_arrow(s: Seq<char>) -> Seq<char>
    decreases s.len(),
{
    if s.len() < 2 {
        s
    } else if s[s.len() - 2] == '-' && s[s.len() - 1] == '>' {
        Seq::empty()
    } else {
        after_last_arrow(s.drop_last()).push(s.last())
    }
}

/// The leading run of digits and dots.
pub open spec fn version_prefix(s: Seq<char>) -> Seq<char>
    decreases s.len(),
{
    if s.len() > 0 && (is_digit(s[0]) || s[0] == '.') {
        seq![s[0]] + version_prefix(s.drop_first())
    } else {
        Seq::empty()
    }
}

/// `s` trimmed and without its leading `v`s.
pub open spec fn bare_version(s: Seq<char>) -> Seq<char> {
    let t = trim(s);
    t.skip(lead_run(t, 'v') as int)
}

/// What `nvm current` printed, read as the version in use.
pub open spec fn nvm_current_spec(output: Seq<char>) -> Result<Option<NodeVersion>, Seq<char>> {
    let t = bare_version(output);
    if t.len() == 0 || t == "none"@ || t == "system"@ {
        Ok(None)
    } else {
        match parse_version_spec(t) {
            Ok(v) => Ok(Some(v)),
            Err(m) => Err("Failed to parse version: "@ + m),
        }
    }
}

/// What `nvm alias default` printed, read as the default version.
pub open spec fn nvm_default_spec(output: Seq<char>) -> Result<Option<NodeVersion>, Seq<char>> {
    let t = version_prefix(bare_version(after_last_arrow(trim(output))));
    if t.len() == 0 {
        Ok(None)
    } else {
        match parse_version_spec(t) {
            Ok(v) => Ok(Some(v)),
            Err(m) => Err("Failed to parse version: "@ + m),
        }
    }
}

/// Bounds of `bare_version(s[lo..hi])`.
fn bare_version_range(s: &Vec<char>, lo: usize, hi: usize) -> (r: (usize, usize))
    requires
        lo <= hi <= s@.len(),
    ensures
        lo <= r.0 <= r.1 <= hi,
        s@.subrange(r.0 as int, r.1 as int) == bare_version(s@.subrange(lo as int, hi as int)),
{
    let (a, b) = trim_range(s, lo, hi);
    let ghost t = s@.subrange(a as int, b as int);
    let mut i = a;
    while i < b && s[i] == 'v'
        invariant
            a <= i <= b <= s@.len(),
            forall|j: int| a <= j < i ==> #[trigger] s@[j] == 'v',
        decreases b - i,
    {
        i = i + 1;
    }
    proof {
        crate::environment::lemma_lead_run(t, 'v', i - a);
    }
    assert(t.skip(i - a) =~= s@.subrange(i as int, b as int));
    (i, b)
}

fn read_version(cs: &Vec<char>, a: usize, b: usize) -> (r: Result<Option<NodeVersion>, BackendError>)
    requires
        a <= b <= cs@.len(),
        b > a,
    ensures
        match r {
            Ok(v) => match parse_version_spec(cs@.subrange(a as int, b as int)) {
                Ok(x) => v == Some(x),
                Err(_) => false,
            },
            Err(BackendError::ParseError(m)) => match parse_version_spec(cs@.subrange(a as int, b as int)) {
                Ok(_) => false,
                Err(e) => m@ == "Failed to parse version: "@ + e,
            },
            Err(_) => false,
        },
{
    match NodeVersion::parse_range(cs, a, b) {
        Ok(v) => Ok(Some(v)),
        Err(e) => {
            let mut m = chars_of("Failed to parse version: ");
            push_str(&mut m, e.0.as_str());
            Err(BackendError::ParseError(string_of(&m)))
        },
    }
}

/// Reads the output of `nvm current`.
pub fn nvm_current_from_output(output: &str) -> (r: Result<Option<NodeVersion>, BackendError>)
    ensures
        match r {
            Ok(v) => nvm_current_spec(output@) == Ok::<Option<NodeVersion>, Seq<char>>(v),
            Err(BackendError::ParseError(m)) => nvm_current_spec(output@) == Err::<Option<NodeVersion>, Seq<char>>(m@),
            Err(_) => false,
        },
{
    let cs = chars_of(output);
    assert(cs@.subrange(0, cs@.len() as int) =~= output@);
    let (a, b) = bare_version_range(&cs, 0, cs.len());
    if a == b || equals_range(&cs, a, b, &chars_of("none")) || equals_range(&cs, a, b, &chars_of("system")) {
        return Ok(None);
    }
    read_version(&cs, a, b)
}

/// Reads the output of `nvm alias default` (such as
/// `default -> 20 (-> v20.11.0)`): the digits and dots after the last
/// arrow, if any.
pub fn nvm_default_from_alias(output: &str) -> (r: Result<Option<NodeVersion>, BackendError>)
    ensures
        match r {
            Ok(v) => nvm_default_spec(output@) == Ok::<Option<NodeVersion>, Seq<char>>(v),
            Err(BackendError::ParseError(m)) => nvm_default_spec(output@) == Err::<Option<NodeVersion>, Seq<char>>(m@),
            Err(_) => false,
        },
{
    let cs = chars_of(output);
    assert(cs@.subrange(0, cs@.len() as int) =~= output@);
    let (a, b) = trim_range(&cs, 0, cs.len());
    let ghost t = cs@.subrange(a as int, b as int);
    // find the start of the text after the last arrow
    let mut start = a;
    let mut i = a;
    assert(after_last_arrow(cs@.subrange(a as int, a as int)) =~= cs@.subrange(a as int, a as int));
    while i < b
        invariant
            a <= start <= i <= b <= cs@.len(),
            after_last_arrow(cs@.subrange(a as int, i as int)) == cs@.subrange(start as int, i as int),
        decreases b - i,
    {
        let ghost u = cs@.subrange(a as int, i + 1);
        assert(u.drop_last() =~= cs@.subrange(a as int, i as int));
        if i > a && cs[i - 1] == '-' && cs[i] == '>' {
            start = i + 1;
            assert(u[u.len() - 2] == cs@[i - 1]);
            assert(cs@.subrange(start as int, i + 1) =~= Seq::<char>::empty());
        } else {
            proof {
                if u.len() >= 2 {
                    assert(u[u.len() - 2] == cs@[i - 1]);
                }
            }
            assert(cs@.subrange(start as int, i + 1) =~= cs@.subrange(start as int, i as int).push(cs@[i as int]));
        }
        i = i + 1;
    }
    let (va, vb) = bare_version_range(&cs, start, b);
    let mut e = va;
    while e < vb && (('0' <= cs[e] && cs[e] <= '9') || cs[e] == '.')
        invariant
            va <= e <= vb <= cs@.len(),
            forall|j: int| va <= j < e ==> is_digit(#[trigger] cs@[j]) || cs@[j] == '.',
        decreases vb - e,
    {
        e = e + 1;
    }
    proof {
        lemma_version_prefix(cs@.subrange(va as int, vb as int), e - va);
    }
    assert(cs@.subrange(va as int, vb as int).take(e - va) =~= cs@.subrange(va as int, e as int));
    if e == va {
        return Ok(None);
    }
    read_version(&cs, va, e)
}

proof fn lemma_version_prefix(s: Seq<char>, i: int)
    requires
        0 <= i <= s.len(),
        forall|j: int| 0 <= j < i ==> is_digit(#[trigger] s[j]) || s[j] == '.',
        i == s.len() || !(is_digit(s[i]) || s[i] == '.'),
    ensures
        version_prefix(s) == s.take(i),
    decreases i,
{
    if i > 0 {
        lemma_version_prefix(s.drop_first(), i - 1);
        assert(seq![s[0]] + s.drop_first().take(i - 1) =~= s.take(i));
    } else {
        assert(s.take(0) =~= Seq::<char>::empty());
    }
}

} // verus!
