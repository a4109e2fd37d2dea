//! Editing a shell profile so that it activates fnm: detecting the
//! activation line, adding it, and adding or removing its flags.

use vstd::prelude::*;
use crate::shell::{init_line, FnmShellOptions, ShellType};
use crate::text::{
    chars_of, contains, contains_in, push_range, push_str, split, split_ranges, string_of, pieces,
};

verus! {

broadcast use vstd::string::group_string_axioms;

/// A shell profile and its text.
#[derive(Debug, Clone)]
pub struct ShellConfig {
    pub shell_type: ShellType,
    pub config_path: String,
    pub content: String,
}

/// A proposed change to a profile.
#[derive(Debug, Clone)]
pub struct ShellConfigEdit {
    pub original: String,
    pub modified: String,
    pub changes: Vec<String>,
}

/// `s` without one trailing carriage return.
pub open spec fn strip_cr(s: Seq<char>) -> Seq<char> {
    if s.len() > 0 && s.last() == '\r' {
        s.drop_last()
    } else {
        s
    }
}

/// The lines of `s` as `str::lines` gives them: split at `\n`, a `\r`
/// before the `\n` dropped, no final empty line.
pub open spec fn lines_of(s: Seq<char>) -> Seq<Seq<char>> {
    let p = split(s, '\n');
    let n = if p.last().len() == 0 { p.len() - 1 } else { p.len() as int };
    Seq::new(n as nat, |i: int| if i < p.len() - 1 { strip_cr(p[i]) } else { p[i] })
}

/// Each line followed by a newline.
pub open spec fn joined_lines(ls: Seq<Seq<char>>) -> Seq<char>
    decreases ls.len(),
{
    if ls.len() == 0 {
        Seq::empty()
    } else {
        joined_lines(ls.drop_last()) + ls.last() + seq!['\n']
    }
}

/// Lines rejoined; a text that did not end in a newline still does not.
pub open spec fn rejoin(s: Seq<char>, ls: Seq<Seq<char>>) -> Seq<char> {
    let body = joined_lines(ls);
    if !(s.len() > 0 && s.last() == '\n') && ls.len() > 0 {
        body.drop_last()
    } else {
        body
    }
}

/// Index of the first occurrence of `p` in `s` (the length of `s` when none).
pub open spec fn first_occ(s: Seq<char>, p: Seq<char>) -> nat
    decreases s.len(),
{
    if s.len() < p.len() || s.len() == 0 {
        s.len()
    } else if s.take(p.len() as int) == p {
        0
    } else {
        1 + first_occ(s.drop_first(), p)
    }
}

/// `s` with every non-overlapping occurrence of `p` (non-empty), from the
/// left, replaced by `r`.
pub open spec fn replace_all(s: Seq<char>, p: Seq<char>, r: Seq<char>) -> Seq<char>
    decreases s.len(),
{
    if p.len() == 0 || s.len() < p.len() {
        s
    } else if s.take(p.len() as int) == p {
        r + replace_all(s.skip(p.len() as int), p, r)
    } else {
        seq![s[0]] + replace_all(s.drop_first(), p, r)
    }
}

/// A line with `flag` put right after its first `fnm env`, if it has an
/// `fnm env` and lacks the flag.
pub open spec fn line_with_flag(l: Seq<char>, flag: Seq<char>) -> Seq<char> {
    if contains(l, "fnm env"@) && !contains(l, flag) {
        let i = first_occ(l, "fnm env"@);
        l.take(i as int) + "fnm env "@ + flag + l.skip(i + 7int)
    } else {
        l
    }
}

/// A line of an `fnm env` call with every form of `flag` removed.
pub open spec fn line_without_flag(l: Seq<char>, flag: Seq<char>) -> Seq<char> {
    if contains(l, "fnm env"@) && contains(l, flag) {
        replace_all(replace_all(replace_all(l, flag + seq![' '], Seq::empty()), seq![' '] + flag, Seq::empty()), flag, Seq::empty())
    } else {
        l
    }
}

pub open spec fn add_flag_spec(s: Seq<char>, flag: Seq<char>) -> Seq<char> {
    rejoin(s, lines_of(s).map_values(|l: Seq<char>| line_with_flag(l, flag)))
}

pub open spec fn remove_flag_spec(s: Seq<char>, flag: Seq<char>) -> Seq<char> {
    rejoin(s, lines_of(s).map_values(|l: Seq<char>| line_without_flag(l, flag)))
}


/// `replace_all` on whole vectors.
fn replace_all_in(s: &Vec<char>, p: &Vec<char>, r: &Vec<char>) -> (out: Vec<char>)
    ensures
        out@ == replace_all(s@, p@, r@),
{
    let mut out: Vec<char> = Vec::new();
    if p.len() == 0 {
        push_range(&mut out, s, 0, s.len());
        assert(s@.subrange(0, s@.len() as int) =~= s@);
        return out;
    }
    let mut i: usize = 0;
    assert(s@.skip(0) =~= s@);
    while i < s.len()
        invariant
            i <= s@.len(),
            p@.len() > 0,
            out@ + replace_all(s@.skip(i as int), p@, r@) == replace_all(s@, p@, r@),
        decreases s@.len() - i,
    {
        let ghost t = s@.skip(i as int);
        let ghost before = out@;
        if s.len() - i < p.len() {
            assert(replace_all(t, p@, r@) == t);
            push_range(&mut out, s, i, s.len());
            assert(s@.subrange(i as int, s@.len() as int) =~= t);
            assert(s@.skip(s@.len() as int) =~= Seq::<char>::empty());
            assert(replace_all(s@.skip(s@.len() as int), p@, r@) == Seq::<char>::empty());
            assert(out@ + Seq::<char>::empty() =~= out@);
            i = s.len();
        } else if crate::text::occurs_at(s, i, s.len(), p) {
            assert(t.take(p@.len() as int) =~= s@.subrange(i as int, i + p@.len()));
            assert(t.skip(p@.len() as int) =~= s@.skip(i + p@.len()));
            push_range(&mut out, r, 0, r.len());
            assert(r@.subrange(0, r@.len() as int) =~= r@);
            assert(before + (r@ + replace_all(t.skip(p@.len() as int), p@, r@)) =~= (before + r@) + replace_all(t.skip(p@.len() as int), p@, r@));
            i = i + p.len();
        } else {
            assert(t.take(p@.len() as int) =~= s@.subrange(i as int, i + p@.len()));
            assert(t.drop_first() =~= s@.skip(i + 1));
            assert(t[0] == s@[i as int]);
            out.push(s[i]);
            assert(before + (seq![s@[i as int]] + replace_all(t.drop_first(), p@, r@)) =~= before.push(s@[i as int]) + replace_all(t.drop_first(), p@, r@));
            i = i + 1;
        }
    }
    assert(s@.skip(s@.len() as int) =~= Seq::<char>::empty());
    assert(out@ + Seq::<char>::empty() =~= out@);
    out
}


/// Position of the first occurrence of `p` (non-empty) in `l`.
fn find_text(l: &Vec<char>, p: &Vec<char>) -> (r: Option<usize>)
    requires
        p@.len() > 0,
    ensures
        match r {
            Some(i) => i == first_occ(l@, p@) && i + p@.len() <= l@.len() && l@.subrange(i as int, i + p@.len()) == p@,
            None => !contains(l@, p@),
        },
{
    let mut i: usize = 0;
    assert(l@.skip(0) =~= l@);
    while i < l.len() && p.len() <= l.len() - i
        invariant
            i <= l@.len(),
            p@.len() > 0,
            first_occ(l@, p@) == i + first_occ(l@.skip(i as int), p@),
            forall|j: int| 0 <= j < i && j + p@.len() <= l@.len() ==> #[trigger] l@.subrange(j, j + p@.len()) != p@,
        decreases l@.len() - i,
    {
        let ghost t = l@.skip(i as int);
        assert(t.take(p@.len() as int) =~= l@.subrange(i as int, i + p@.len()));
        if crate::text::occurs_at(l, i, l.len(), p) {
            return Some(i);
        }
        assert(t.drop_first() =~= l@.skip(i + 1));
        i = i + 1;
    }
    assert forall|j: int| 0 <= j && j + p@.len() <= l@.len() implies #[trigger] l@.subrange(j, j + p@.len()) != p@ by {
        if j >= i {
            assert(false);
        }
    }
    None
}

/// `line_with_flag` on a vector.
fn with_flag(l: &Vec<char>, flag: &Vec<char>, fnm_env: &Vec<char>) -> (r: Vec<char>)
    requires
        fnm_env@ == "fnm env"@,
    ensures
        r@ == line_with_flag(l@, flag@),
{
    proof {
        reveal_strlit("fnm env");
    }
    let mut out: Vec<char> = Vec::new();
    let has_env = crate::text::contains_in(l, 0, l.len(), fnm_env);
    let has_flag = crate::text::contains_in(l, 0, l.len(), flag);
    assert(l@.subrange(0, l@.len() as int) =~= l@);
    if has_env && !has_flag {
        match find_text(l, fnm_env) {
            Some(i) => {
                push_range(&mut out, l, 0, i);
                push_str(&mut out, "fnm env ");
                push_range(&mut out, flag, 0, flag.len());
                push_range(&mut out, l, i + 7, l.len());
                assert(flag@.subrange(0, flag@.len() as int) =~= flag@);
                assert(out@ =~= l@.take(i as int) + "fnm env "@ + flag@ + l@.skip(i + 7int));
            },
            None => {},
        }
        return out;
    }
    push_range(&mut out, l, 0, l.len());
    out
}

/// `line_without_flag` on a vector.
fn without_flag(l: &Vec<char>, flag: &Vec<char>, fnm_env: &Vec<char>) -> (r: Vec<char>)
    requires
        fnm_env@ == "fnm env"@,
    ensures
        r@ == line_without_flag(l@, flag@),
{
    let has_env = crate::text::contains_in(l, 0, l.len(), fnm_env);
    let has_flag = crate::text::contains_in(l, 0, l.len(), flag);
    assert(l@.subrange(0, l@.len() as int) =~= l@);
    if has_env && has_flag {
        let empty: Vec<char> = Vec::new();
        let mut flag_space: Vec<char> = Vec::new();
        push_range(&mut flag_space, flag, 0, flag.len());
        flag_space.push(' ');
        let mut space_flag: Vec<char> = Vec::new();
        space_flag.push(' ');
        push_range(&mut space_flag, flag, 0, flag.len());
        assert(flag@.subrange(0, flag@.len() as int) =~= flag@);
        assert(flag_space@ =~= flag@ + seq![' ']);
        assert(space_flag@ =~= seq![' '] + flag@);
        assert(empty@ =~= Seq::<char>::empty());
        let a = replace_all_in(l, &flag_space, &empty);
        let b = replace_all_in(&a, &space_flag, &empty);
        return replace_all_in(&b, flag, &empty);
    }
    let mut out: Vec<char> = Vec::new();
    push_range(&mut out, l, 0, l.len());
    out
}


/// The edit of one line: the flag added, or removed.
pub open spec fn line_edit(l: Seq<char>, flag: Seq<char>, add: bool) -> Seq<char> {
    if add {
        line_with_flag(l, flag)
    } else {
        line_without_flag(l, flag)
    }
}

pub open spec fn edit_spec(s: Seq<char>, flag: Seq<char>, add: bool) -> Seq<char> {
    rejoin(s, lines_of(s).map_values(|l: Seq<char>| line_edit(l, flag, add)))
}

/// Applies the flag edit to every line of `content`.
fn edit_lines(content: &str, flag: &str, add: bool) -> (r: String)
    ensures
        r@ == edit_spec(content@, flag@, add),
{
    let cs = chars_of(content);
    assert(cs@.subrange(0, cs@.len() as int) =~= content@);
    let fl = chars_of(flag);
    let fe = chars_of("fnm env");
    let parts = split_ranges(&cs, 0, cs.len(), '\n');
    let ghost p = split(content@, '\n');
    assert(pieces(cs@, parts@) == p);
    proof {
        crate::text::lemma_split_nonempty(content@, '\n');
    }
    let count = parts.len();
    let last = parts[count - 1];
    assert(p.last() == cs@.subrange(last.0 as int, last.1 as int));
    let n = if last.0 == last.1 { count - 1 } else { count };
    let ghost ls = lines_of(content@);
    let ghost ed = ls.map_values(|l: Seq<char>| line_edit(l, flag@, add));
    assert(ls.len() == n);
    let mut body: Vec<char> = Vec::new();
    let mut i: usize = 0;
    assert(ed.take(0) =~= Seq::<Seq<char>>::empty());
    while i < n
        invariant
            i <= n <= count == parts@.len(),
            n == ls.len(),
            pieces(cs@, parts@) == p,
            p == split(content@, '\n'),
            p.len() == count,
            ls == lines_of(content@),
            ed == ls.map_values(|l: Seq<char>| line_edit(l, flag@, add)),
            fl@ == flag@,
            fe@ == "fnm env"@,
            forall|k: int| 0 <= k < parts@.len() ==> (#[trigger] parts@[k]).0 <= parts@[k].1 <= cs@.len(),
            body@ == joined_lines(ed.take(i as int)),
        decreases n - i,
    {
        let (a, b0) = parts[i];
        assert(p[i as int] == cs@.subrange(a as int, b0 as int));
        let b = if i + 1 < count && b0 > a && cs[b0 - 1] == '\r' { b0 - 1 } else { b0 };
        assert(ls[i as int] == cs@.subrange(a as int, b as int)) by {
            let pi = p[i as int];
            assert(pi.len() == b0 - a);
            if pi.len() > 0 {
                assert(pi.last() == cs@[b0 - 1]);
            }
            if i + 1 < count {
                assert(ls[i as int] == strip_cr(pi));
                if b0 > a && cs@[b0 - 1] == '\r' {
                    assert(pi.drop_last() =~= cs@.subrange(a as int, b as int));
                }
            } else {
                assert(ls[i as int] == pi);
            }
        }
        let mut line: Vec<char> = Vec::new();
        push_range(&mut line, &cs, a, b);
        assert(line@ =~= ls[i as int]);
        let edited = if add { with_flag(&line, &fl, &fe) } else { without_flag(&line, &fl, &fe) };
        let ghost before = body@;
        push_range(&mut body, &edited, 0, edited.len());
        body.push('\n');
        assert(edited@.subrange(0, edited@.len() as int) =~= edited@);
        assert(ed.take(i + 1).drop_last() =~= ed.take(i as int));
        assert(ed.take(i + 1).last() == edited@);
        assert(body@ =~= before + edited@ + seq!['\n']);
        i = i + 1;
    }
    assert(ed.take(n as int) =~= ed);
    if !(cs.len() > 0 && cs[cs.len() - 1] == '\n') && n > 0 {
        body.pop();
        assert(body@ =~= joined_lines(ed).drop_last());
    }
    string_of(&body)
}


/// The change that one flag needs: added when wanted and missing, removed
/// when present and unwanted; gives the new text and the change's line.
pub open spec fn flag_step(c: Seq<char>, flag: Seq<char>, enabled: bool) -> (Seq<char>, Seq<Seq<char>>) {
    let present = contains(c, flag);
    if enabled && !present {
        (edit_spec(c, flag, true), seq!["Added "@ + flag])
    } else if !enabled && present {
        (edit_spec(c, flag, false), seq!["Removed "@ + flag])
    } else {
        (c, Seq::empty())
    }
}

/// The block appended to a profile without an activation line.
pub open spec fn init_block(shell: ShellType, o: FnmShellOptions) -> Seq<char> {
    "\n# fnm (Fast Node Manager)\n"@ + init_line(shell, o) + "\n"@
}

/// The profile text and change lines that bring `content` to options `o`:
/// an activation line is appended when there is none, else each flag is
/// added or removed as needed.
pub open spec fn profile_edit(content: Seq<char>, shell: ShellType, o: FnmShellOptions) -> (Seq<char>, Seq<Seq<char>>) {
    if !contains(content, "fnm env"@) {
        (content + init_block(shell, o), seq!["Add fnm initialization: "@ + init_line(shell, o)])
    } else {
        let s1 = flag_step(content, "--use-on-cd"@, o.use_on_cd);
        let s2 = flag_step(s1.0, "--resolve-engines"@, o.resolve_engines);
        let s3 = flag_step(s2.0, "--corepack-enabled"@, o.corepack_enabled);
        (s3.0, s1.1 + s2.1 + s3.1)
    }
}

pub open spec fn change_texts(v: Seq<String>) -> Seq<Seq<char>> {
    v.map_values(|s: String| s@)
}

fn apply_flag(content: String, changes: &mut Vec<String>, flag: &str, enabled: bool) -> (r: String)
    ensures
        r@ == flag_step(content@, flag@, enabled).0,
        change_texts(final(changes)@) == change_texts(old(changes)@) + flag_step(content@, flag@, enabled).1,
{
    let cs = chars_of(content.as_str());
    let fl = chars_of(flag);
    let present = contains_in(&cs, 0, cs.len(), &fl);
    assert(cs@.subrange(0, cs@.len() as int) =~= content@);
    let ghost before = changes@;
    if enabled && !present {
        let r = edit_lines(content.as_str(), flag, true);
        let mut m = chars_of("Added ");
        push_str(&mut m, flag);
        changes.push(string_of(&m));
        assert(change_texts(changes@) =~= change_texts(before) + seq!["Added "@ + flag@]);
        r
    } else if !enabled && present {
        let r = edit_lines(content.as_str(), flag, false);
        let mut m = chars_of("Removed ");
        push_str(&mut m, flag);
        changes.push(string_of(&m));
        assert(change_texts(changes@) =~= change_texts(before) + seq!["Removed "@ + flag@]);
        r
    } else {
        assert(change_texts(changes@) =~= change_texts(before) + Seq::<Seq<char>>::empty());
        content
    }
}

impl ShellConfig {
    /// Whether the profile already runs `fnm env`.
    pub fn has_fnm_init(&self) -> (r: bool)
        ensures
            r == contains(self.content@, "fnm env"@),
    {
        let cs = chars_of(self.content.as_str());
        assert(cs@.subrange(0, cs@.len() as int) =~= self.content@);
        contains_in(&cs, 0, cs.len(), &chars_of("fnm env"))
    }

    /// The flags of the profile's activation, if it has one.
    pub fn detect_fnm_options(&self) -> (r: Option<FnmShellOptions>)
        ensures
            !contains(self.content@, "fnm env"@) ==> r is None,
            contains(self.content@, "fnm env"@) ==> r == Some(FnmShellOptions {
                use_on_cd: contains(self.content@, "--use-on-cd"@),
                resolve_engines: contains(self.content@, "--resolve-engines"@),
                corepack_enabled: contains(self.content@, "--corepack-enabled"@),
            }),
    {
        if !self.has_fnm_init() {
            return None;
        }
        let cs = chars_of(self.content.as_str());
        assert(cs@.subrange(0, cs@.len() as int) =~= self.content@);
        Some(FnmShellOptions {
            use_on_cd: contains_in(&cs, 0, cs.len(), &chars_of("--use-on-cd")),
            resolve_engines: contains_in(&cs, 0, cs.len(), &chars_of("--resolve-engines")),
            corepack_enabled: contains_in(&cs, 0, cs.len(), &chars_of("--corepack-enabled")),
        })
    }

    /// The edit that activates fnm with `options`: an activation block is
    /// appended when the profile has none, else its flags are brought in
    /// line with `options`. The profile itself is not changed.
    pub fn add_fnm_init(&mut self, options: &FnmShellOptions) -> (r: ShellConfigEdit)
        ensures
            *final(self) == *old(self),
            r.original@ == old(self).content@,
            (r.modified@, change_texts(r.changes@)) == profile_edit(old(self).content@, old(self).shell_type, *options),
    {
        self.update_fnm_flags(options)
    }

    /// Same as `add_fnm_init`: both end in the profile that `options` asks for.
    pub fn update_fnm_flags(&mut self, options: &FnmShellOptions) -> (r: ShellConfigEdit)
        ensures
            *final(self) == *old(self),
            r.original@ == old(self).content@,
            (r.modified@, change_texts(r.changes@)) == profile_edit(old(self).content@, old(self).shell_type, *options),
    {
        let original = self.content.clone();
        let mut changes: Vec<String> = Vec::new();
        if !self.has_fnm_init() {
            let init = self.shell_type.fnm_init_command(options);
            let mut m = chars_of(self.content.as_str());
            push_str(&mut m, "\n# fnm (Fast Node Manager)\n");
            push_str(&mut m, init.as_str());
            push_str(&mut m, "\n");
            let mut c = chars_of("Add fnm initialization: ");
            push_str(&mut c, init.as_str());
            changes.push(string_of(&c));
            assert(change_texts(changes@) =~= seq!["Add fnm initialization: "@ + init_line(self.shell_type, *options)]);
            assert(m@ =~= self.content@ + init_block(self.shell_type, *options));
            return ShellConfigEdit { original, modified: string_of(&m), changes };
        }
        let c0 = self.content.clone();
        let c1 = apply_flag(c0, &mut changes, "--use-on-cd", options.use_on_cd);
        let c2 = apply_flag(c1, &mut changes, "--resolve-engines", options.resolve_engines);
        let c3 = apply_flag(c2, &mut changes, "--corepack-enabled", options.corepack_enabled);
        assert(change_texts(Seq::<String>::empty()) =~= Seq::<Seq<char>>::empty());
        assert(Seq::<Seq<char>>::empty() + flag_step(self.content@, "--use-on-cd"@, options.use_on_cd).1
            =~= flag_step(self.content@, "--use-on-cd"@, options.use_on_cd).1);
        ShellConfigEdit { original, modified: c3, changes }
    }
}

/// The preview of an edit: one `+ change` line per change, or a note that
/// nothing changes.
pub open spec fn preview_text(changes: Seq<Seq<char>>) -> Seq<char>
    decreases changes.len(),
{
    if changes.len() == 0 {
        Seq::empty()
    } else {
        preview_text(changes.drop_last()) + "+ "@ + changes.last() + "\n"@
    }
}

impl ShellConfigEdit {
    pub fn has_changes(&self) -> (r: bool)
        ensures
            r == (self.changes@.len() > 0),
    {
        self.changes.len() > 0
    }

    pub fn diff_preview(&self) -> (r: String)
        ensures
            self.changes@.len() == 0 ==> r@ == "No changes needed."@,
            self.changes@.len() > 0 ==> r@ == preview_text(change_texts(self.changes@)),
    {
        if !self.has_changes() {
            return "No changes needed.".to_string();
        }
        let ghost ct = change_texts(self.changes@);
        let mut out: Vec<char> = Vec::new();
        let mut i: usize = 0;
        assert(ct.take(0) =~= Seq::<Seq<char>>::empty());
        while i < self.changes.len()
            invariant
                i <= self.changes@.len(),
                ct == change_texts(self.changes@),
                out@ == preview_text(ct.take(i as int)),
            decreases self.changes@.len() - i,
        {
            let ghost before = out@;
            push_str(&mut out, "+ ");
            push_str(&mut out, self.changes[i].as_str());
            push_str(&mut out, "\n");
            assert(ct.take(i + 1).drop_last() =~= ct.take(i as int));
            assert(ct.take(i + 1).last() == self.changes@[i as int]@);
            i = i + 1;
        }
        assert(ct.take(ct.len() as int) =~= ct);
        string_of(&out)
    }
}


/// Bounds of the lines of `cs`, as `lines_of` gives them.
pub fn line_ranges(cs: &Vec<char>) -> (r: Vec<(usize, usize)>)
    ensures
        pieces(cs@, r@) == lines_of(cs@),
        forall|k: int| 0 <= k < r@.len() ==> (#[trigger] r@[k]).0 <= r@[k].1 <= cs@.len(),
{
    let parts = split_ranges(cs, 0, cs.len(), '\n');
    assert(cs@.subrange(0, cs@.len() as int) =~= cs@);
    let ghost p = split(cs@, '\n');
    proof {
        crate::text::lemma_split_nonempty(cs@, '\n');
    }
    let count = parts.len();
    let last = parts[count - 1];
    assert(p.last() == cs@.subrange(last.0 as int, last.1 as int));
    let n = if last.0 == last.1 { count - 1 } else { count };
    let ghost ls = lines_of(cs@);
    let mut out: Vec<(usize, usize)> = Vec::new();
    let mut i: usize = 0;
    while i < n
        invariant
            i <= n <= count == parts@.len(),
            n == ls.len(),
            pieces(cs@, parts@) == p,
            p == split(cs@, '\n'),
            ls == lines_of(cs@),
            forall|k: int| 0 <= k < parts@.len() ==> (#[trigger] parts@[k]).0 <= parts@[k].1 <= cs@.len(),
            out@.len() == i,
            forall|k: int| 0 <= k < i ==> (#[trigger] out@[k]).0 <= out@[k].1 <= cs@.len() && cs@.subrange(out@[k].0 as int, out@[k].1 as int) == ls[k],
        decreases n - i,
    {
        let (a, b0) = parts[i];
        assert(p[i as int] == cs@.subrange(a as int, b0 as int));
        let b = if i + 1 < count && b0 > a && cs[b0 - 1] == '\r' { b0 - 1 } else { b0 };
        assert(ls[i as int] == cs@.subrange(a as int, b as int)) by {
            let pi = p[i as int];
            assert(pi.len() == b0 - a);
            if pi.len() > 0 {
                assert(pi.last() == cs@[b0 - 1]);
            }
            if i + 1 < count {
                assert(ls[i as int] == strip_cr(pi));
                if b0 > a && cs@[b0 - 1] == '\r' {
                    assert(pi.drop_last() =~= cs@.subrange(a as int, b as int));
                }
            } else {
                assert(ls[i as int] == pi);
            }
        }
        out.push((a, b));
        i = i + 1;
    }
    assert(pieces(cs@, out@) =~= ls);
    out
}

} // verus!
