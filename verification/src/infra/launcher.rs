//! Opening entries in an editor and PDFs in a reader: the command lines to
//! run and the files to open.
use vstd::prelude::*;

use crate::config::Config;
use crate::config::paths::{after_last_slash, file_name, file_name_of, is_relative, join_path, join_path_text, parent, parent_of, strip_tail};
use crate::domain::Entry;
use crate::text::{
    chars_eq, chars_of, decimal, decimal_text, ends_with, ends_with_exec, find, find_exec,
    is_ascii_alpha, is_ws, is_ws_char, lemma_find_from_bounds, lower_seq, slice_range, split,
    split_exec, string_of, to_ascii_lower, trim, trim_bounds, trim_chars,
};

verus! {

/// Opens entries in a text editor.
pub struct EditorLauncher;

/// Opens an entry's PDF in a reader.
pub struct PdfLauncher;

// ---------------------------------------------------------------------------
// Splitting a command line.
// ---------------------------------------------------------------------------

/// The state of splitting a command line: the words so far, the current
/// word, the open quote, and whether a backslash is pending.
pub struct SplitState {
    pub words: Seq<Seq<char>>,
    pub current: Seq<char>,
    pub quote: Option<char>,
    pub escaped: bool,
}

/// Reads one character of a command line: a backslash takes the next
/// character literally; `'` and `"` open and close quotes (the other kind
/// is literal inside); whitespace outside quotes ends a word.
pub open spec fn split_step(st: SplitState, ch: char) -> SplitState {
    if st.escaped {
        SplitState { current: st.current.push(ch), escaped: false, ..st }
    } else if ch == '\\' {
        SplitState { escaped: true, ..st }
    } else if ch == '\'' || ch == '"' {
        if st.quote == Some(ch) {
            SplitState { quote: None, ..st }
        } else if st.quote is None {
            SplitState { quote: Some(ch), ..st }
        } else {
            SplitState { current: st.current.push(ch), ..st }
        }
    } else if is_ws(ch) && st.quote is None {
        if st.current.len() > 0 {
            SplitState { words: st.words.push(st.current), current: Seq::empty(), ..st }
        } else {
            st
        }
    } else {
        SplitState { current: st.current.push(ch), ..st }
    }
}

/// The state after reading the first `n` characters of `s`.
pub open spec fn split_fold(s: Seq<char>, n: int) -> SplitState
    decreases n,
{
    if n <= 0 {
        SplitState { words: Seq::empty(), current: Seq::empty(), quote: None, escaped: false }
    } else {
        split_step(split_fold(s, n - 1), s[n - 1])
    }
}

/// The words of the command line `s`, or none when a quote is left open or
/// a backslash ends it.
pub open spec fn command_words(s: Seq<char>) -> Option<Seq<Seq<char>>> {
    let st = split_fold(s, s.len() as int);
    if st.escaped || st.quote is Some {
        None
    } else if st.current.len() > 0 {
        Some(st.words.push(st.current))
    } else {
        Some(st.words)
    }
}

proof fn lemma_split_fold_words_nonempty(s: Seq<char>, n: int)
    ensures
        forall|k: int| 0 <= k < split_fold(s, n).words.len() ==> (#[trigger] split_fold(s, n).words[k]).len() > 0,
    decreases n,
{
    if n > 0 {
        lemma_split_fold_words_nonempty(s, n - 1);
        let prev = split_fold(s, n - 1);
        let cur = split_fold(s, n);
        assert forall|k: int| 0 <= k < cur.words.len() implies (#[trigger] cur.words[k]).len() > 0 by {
            if k < prev.words.len() {
                assert(cur.words[k] == prev.words[k]);
            }
        }
    }
}

/// Every word of a split command line is non-empty: quotes that hold
/// nothing and runs of blanks make no word.
pub proof fn lemma_command_words_nonempty(s: Seq<char>)
    ensures
        command_words(s) matches Some(ws) ==> forall|k: int| 0 <= k < ws.len() ==> (#[trigger] ws[k]).len() > 0,
{
    lemma_split_fold_words_nonempty(s, s.len() as int);
    let st = split_fold(s, s.len() as int);
    if !(st.escaped || st.quote is Some) && st.current.len() > 0 {
        let ws = st.words.push(st.current);
        assert forall|k: int| 0 <= k < ws.len() implies (#[trigger] ws[k]).len() > 0 by {
            if k < st.words.len() {
                assert(ws[k] == st.words[k]);
            }
        }
    }
}

/// The texts of a list of strings.
pub open spec fn texts(v: Seq<String>) -> Seq<Seq<char>> {
    v.map_values(|s: String| s@)
}

/// Splits a command line into its program and arguments, honouring quotes
/// and backslash escapes.
pub fn split_command(command: &str) -> (r: Result<(String, Vec<String>), String>)
    ensures
        match command_words(command@) {
            None => r matches Err(m) && m@ == "invalid command `"@ + command@ + "`"@,
            Some(ws) => if ws.len() == 0 {
                r matches Err(m) && m@ == "command is empty"@
            } else {
                r matches Ok((p, args)) && p@ == ws[0] && texts(args@) == ws.drop_first()
            },
        },
{
    let cs = chars_of(command);
    let mut words: Vec<Vec<char>> = Vec::new();
    let mut current: Vec<char> = Vec::new();
    let mut quote: Option<char> = None;
    let mut escaped = false;
    let mut i: usize = 0;
    assert(words@.map_values(|w: Vec<char>| w@) =~= Seq::<Seq<char>>::empty());
    while i < cs.len()
        invariant
            i <= cs@.len(),
            cs@ == command@,
            split_fold(cs@, i as int) == (SplitState {
                words: words@.map_values(|w: Vec<char>| w@),
                current: current@,
                quote,
                escaped,
            }),
        decreases cs.len() - i,
    {
        let ch = cs[i];
        let ghost before = words@.map_values(|w: Vec<char>| w@);
        if escaped {
            current.push(ch);
            escaped = false;
        } else if ch == '\\' {
            escaped = true;
        } else if ch == '\'' || ch == '"' {
            if quote == Some(ch) {
                quote = None;
            } else if quote.is_none() {
                quote = Some(ch);
            } else {
                current.push(ch);
            }
        } else if is_ws_char(ch) && quote.is_none() {
            if current.len() > 0 {
                let mut taken: Vec<char> = Vec::new();
                std::mem::swap(&mut taken, &mut current);
                words.push(taken);
                assert(words@.map_values(|w: Vec<char>| w@) =~= before.push(taken@));
            }
        } else {
            current.push(ch);
        }
        i += 1;
        assert(words@.map_values(|w: Vec<char>| w@) =~= split_fold(cs@, i as int).words);
    }
    if escaped || quote.is_some() {
        let mut m = String::from_str("invalid command `");
        m.append(command);
        m.append("`");
        return Err(m);
    }
    if current.len() > 0 {
        let ghost before = words@.map_values(|w: Vec<char>| w@);
        words.push(current);
        assert(words@.map_values(|w: Vec<char>| w@) =~= before.push(current@));
    }
    let ghost ws = words@.map_values(|w: Vec<char>| w@);
    assert(command_words(command@) == Some(ws));
    if words.len() == 0 {
        return Err(String::from_str("command is empty"));
    }
    let program = string_of(&words[0]);
    let mut args: Vec<String> = Vec::new();
    let mut k: usize = 1;
    while k < words.len()
        invariant
            1 <= k <= words@.len(),
            ws == words@.map_values(|w: Vec<char>| w@),
            texts(args@) == ws.subrange(1, k as int),
        decreases words.len() - k,
    {
        let a = string_of(&words[k]);
        assert(a@ == ws[k as int]);
        let ghost prev = texts(args@);
        args.push(a);
        assert(texts(args@) =~= prev.push(a@));
        k += 1;
        assert(texts(args@) =~= ws.subrange(1, k as int));
    }
    assert(ws.subrange(1, ws.len() as int) =~= ws.drop_first());
    Ok((program, args))
}

// ---------------------------------------------------------------------------
// Editor command lines.
// ---------------------------------------------------------------------------

/// The lower-cased file name of `program` (the whole of it when it has no
/// file name).
pub open spec fn executable_name_of(program: Seq<char>) -> Seq<char> {
    match file_name_of(program) {
        Some(n) => lower_seq(n),
        None => lower_seq(program),
    }
}

/// The lower-cased file name of `program`.
pub fn executable_name(program: &str) -> (r: String)
    ensures
        r@ == executable_name_of(program@),
{
    match file_name(program) {
        Some(n) => string_of(&to_ascii_lower(&chars_of(n.as_str()))),
        None => string_of(&to_ascii_lower(&chars_of(program))),
    }
}

/// The extra arguments that make the editor `program` open `file` at
/// `line`, for the editors that support it; otherwise just the file.
pub open spec fn jump_spec(program: Seq<char>, file: Seq<char>, line: nat) -> Seq<Seq<char>> {
    let e = executable_name_of(program);
    let l = decimal(line);
    if seq!["vim"@, "nvim"@, "vi"@, "hx"@, "helix"@, "kak"@].contains(e) {
        seq!["+"@ + l, file]
    } else if seq!["nano"@].contains(e) {
        seq!["+"@ + l + ",1"@, file]
    } else if seq!["emacs"@, "emacsclient"@].contains(e) {
        seq!["+"@ + l + ":1"@, file]
    } else if seq!["code"@, "codium"@, "code-insiders"@].contains(e) {
        seq!["--goto"@, file + ":"@ + l + ":1"@, "--wait"@]
    } else if seq!["subl"@, "sublime_text"@].contains(e) {
        seq!["--wait"@, file + ":"@ + l + ":1"@]
    } else if seq!["mate"@].contains(e) {
        seq!["-w"@, "-l"@, l, file]
    } else {
        seq![file]
    }
}

/// Whether `s` is one of `names`.
fn is_any(s: &str, names: &[&str]) -> (r: bool)
    ensures
        r == crate::config::validate::strs_view(names@).contains(s@),
{
    let c = chars_of(s);
    let mut i: usize = 0;
    while i < names.len()
        invariant
            i <= names@.len(),
            c@ == s@,
            forall|k: int| 0 <= k < i ==> (#[trigger] names@[k])@ != s@,
        decreases names.len() - i,
    {
        if chars_eq(&chars_of(names[i]), &c) {
            assert(crate::config::validate::strs_view(names@)[i as int] == s@);
            return true;
        }
        i += 1;
    }
    assert(!crate::config::validate::strs_view(names@).contains(s@)) by {
        if crate::config::validate::strs_view(names@).contains(s@) {
            let k = choose|k: int|
                0 <= k < names@.len() && #[trigger] crate::config::validate::strs_view(names@)[k]
                    == s@;
            assert(names@[k]@ == s@);
        }
    }
    false
}

/// The arguments that open `file_path` at `line` in the editor `program`.
pub fn jump_arguments(program: &str, file_path: &str, line: usize) -> (r: Vec<String>)
    ensures
        texts(r@) == jump_spec(program@, file_path@, line as nat),
{
    let editor = executable_name(program);
    let e = editor.as_str();
    let l = decimal_text(line);
    let file = file_path.to_owned();
    let terminal: [&str; 6] = ["vim", "nvim", "vi", "hx", "helix", "kak"];
    let emacs: [&str; 2] = ["emacs", "emacsclient"];
    let vscode: [&str; 3] = ["code", "codium", "code-insiders"];
    let sublime: [&str; 2] = ["subl", "sublime_text"];
    let nano: [&str; 1] = ["nano"];
    let mate: [&str; 1] = ["mate"];
    proof {
        let sv = |v: Seq<&str>| crate::config::validate::strs_view(v);
        assert(sv(terminal@) =~= seq!["vim"@, "nvim"@, "vi"@, "hx"@, "helix"@, "kak"@]);
        assert(sv(emacs@) =~= seq!["emacs"@, "emacsclient"@]);
        assert(sv(vscode@) =~= seq!["code"@, "codium"@, "code-insiders"@]);
        assert(sv(sublime@) =~= seq!["subl"@, "sublime_text"@]);
        assert(sv(nano@) =~= seq!["nano"@]);
        assert(sv(mate@) =~= seq!["mate"@]);
    }
    let r = if is_any(e, &terminal) {
        let mut jump = String::from_str("+");
        jump.append(l.as_str());
        vec![jump, file]
    } else if is_any(e, &nano) {
        let mut jump = String::from_str("+");
        jump.append(l.as_str());
        jump.append(",1");
        vec![jump, file]
    } else if is_any(e, &emacs) {
        let mut jump = String::from_str("+");
        jump.append(l.as_str());
        jump.append(":1");
        vec![jump, file]
    } else if is_any(e, &vscode) {
        let mut target = file;
        target.append(":");
        target.append(l.as_str());
        target.append(":1");
        vec![String::from_str("--goto"), target, String::from_str("--wait")]
    } else if is_any(e, &sublime) {
        let mut target = file;
        target.append(":");
        target.append(l.as_str());
        target.append(":1");
        vec![String::from_str("--wait"), target]
    } else if is_any(e, &mate) {
        vec![String::from_str("-w"), String::from_str("-l"), l, file]
    } else {
        vec![file]
    };
    assert(texts(r@) =~= jump_spec(program@, file_path@, line as nat));
    r
}

/// A program named without a directory: not empty, no `/`, no upper-case
/// ASCII letter, and neither `.` nor `..`.
pub open spec fn plain_program_name(n: Seq<char>) -> bool {
    &&& n.len() > 0
    &&& forall|i: int| 0 <= i < n.len() ==> #[trigger] n[i] != '/' && !('A' <= n[i] <= 'Z')
    &&& n != seq!['.']
    &&& n != seq!['.', '.']
}

proof fn lemma_after_slash_of_name(p: Seq<char>, n: Seq<char>)
    requires
        p.len() == 0 || p.last() == '/',
        forall|i: int| 0 <= i < n.len() ==> #[trigger] n[i] != '/',
    ensures
        after_last_slash(p + n) == n,
    decreases n.len(),
{
    if n.len() == 0 {
        assert(p + n =~= p);
    } else {
        let m = n.drop_last();
        assert forall|i: int| 0 <= i < m.len() implies #[trigger] m[i] != '/' by {
            assert(m[i] == n[i]);
        }
        lemma_after_slash_of_name(p, m);
        assert((p + n).last() == n[n.len() - 1]);
        assert((p + n).drop_last() =~= p + m);
        assert(m.push(n.last()) =~= n);
    }
}

/// The executable name of a plain program name is the name itself, whether
/// it is given bare or under a directory `dir`.
pub proof fn lemma_plain_executable_name(dir: Seq<char>, n: Seq<char>)
    requires
        plain_program_name(n),
    ensures
        executable_name_of(n) == n,
        executable_name_of(dir + seq!['/'] + n) == n,
{
    let p = dir + seq!['/'];
    let q = p + n;
    assert(n.last() == n[n.len() - 1]);
    assert(n.last() != '/');
    if n.len() >= 2 {
        assert(n[n.len() - 2] != '/');
    }
    if n.len() == 1 && n.last() == '.' {
        assert(n =~= seq!['.']);
    }
    assert(strip_tail(n) == n);
    assert(q.last() == n.last());
    assert(q[q.len() - 2] == '/' ==> n.len() == 1) by {
        if n.len() >= 2 {
            assert(q[q.len() - 2] == n[n.len() - 2]);
        }
    }
    assert(strip_tail(q) == q);
    lemma_after_slash_of_name(Seq::empty(), n);
    assert(Seq::<char>::empty() + n =~= n);
    lemma_after_slash_of_name(p, n);
    assert(dir + seq!['/'] + n == q);
    assert(lower_seq(n) =~= n);
}

/// The editors that take the line as `+LINE` (`vim`, `nvim`, `vi`, `hx`,
/// `helix`, `kak`) are handed `+LINE` and then the file, named bare or
/// under any directory; `nano` is handed `+LINE,1` and `emacs` `+LINE:1`.
pub proof fn lemma_terminal_editors_jump_to_line(dir: Seq<char>, file: Seq<char>, line: nat)
    ensures
        jump_spec("vim"@, file, line) == seq!["+"@ + decimal(line), file],
        jump_spec("nvim"@, file, line) == seq!["+"@ + decimal(line), file],
        jump_spec("vi"@, file, line) == seq!["+"@ + decimal(line), file],
        jump_spec("hx"@, file, line) == seq!["+"@ + decimal(line), file],
        jump_spec("helix"@, file, line) == seq!["+"@ + decimal(line), file],
        jump_spec("kak"@, file, line) == seq!["+"@ + decimal(line), file],
        jump_spec(dir + "/vim"@, file, line) == seq!["+"@ + decimal(line), file],
        jump_spec(dir + "/nvim"@, file, line) == seq!["+"@ + decimal(line), file],
        jump_spec(dir + "/vi"@, file, line) == seq!["+"@ + decimal(line), file],
        jump_spec(dir + "/hx"@, file, line) == seq!["+"@ + decimal(line), file],
        jump_spec(dir + "/helix"@, file, line) == seq!["+"@ + decimal(line), file],
        jump_spec(dir + "/kak"@, file, line) == seq!["+"@ + decimal(line), file],
        jump_spec("nano"@, file, line) == seq!["+"@ + decimal(line) + ",1"@, file],
        jump_spec("emacs"@, file, line) == seq!["+"@ + decimal(line) + ":1"@, file],
{
    reveal_strlit("vim");
    reveal_strlit("nvim");
    reveal_strlit("vi");
    reveal_strlit("hx");
    reveal_strlit("helix");
    reveal_strlit("kak");
    reveal_strlit("/vim");
    reveal_strlit("/nvim");
    reveal_strlit("/vi");
    reveal_strlit("/hx");
    reveal_strlit("/helix");
    reveal_strlit("/kak");
    reveal_strlit("nano");
    reveal_strlit("emacs");
    let t = seq!["vim"@, "nvim"@, "vi"@, "hx"@, "helix"@, "kak"@];
    assert(t[0] == "vim"@ && t[1] == "nvim"@ && t[2] == "vi"@);
    assert(t[3] == "hx"@ && t[4] == "helix"@ && t[5] == "kak"@);
    assert(plain_program_name("vim"@));
    assert(plain_program_name("nvim"@));
    assert(plain_program_name("vi"@));
    assert(plain_program_name("hx"@));
    assert(plain_program_name("helix"@));
    assert(plain_program_name("kak"@));
    lemma_plain_executable_name(dir, "vim"@);
    lemma_plain_executable_name(dir, "nvim"@);
    lemma_plain_executable_name(dir, "vi"@);
    lemma_plain_executable_name(dir, "hx"@);
    lemma_plain_executable_name(dir, "helix"@);
    lemma_plain_executable_name(dir, "kak"@);
    assert(dir + seq!['/'] + "vim"@ =~= dir + "/vim"@);
    assert(dir + seq!['/'] + "nvim"@ =~= dir + "/nvim"@);
    assert(dir + seq!['/'] + "vi"@ =~= dir + "/vi"@);
    assert(dir + seq!['/'] + "hx"@ =~= dir + "/hx"@);
    assert(dir + seq!['/'] + "helix"@ =~= dir + "/helix"@);
    assert(dir + seq!['/'] + "kak"@ =~= dir + "/kak"@);
    assert(plain_program_name("nano"@));
    assert(plain_program_name("emacs"@));
    lemma_plain_executable_name(dir, "nano"@);
    lemma_plain_executable_name(dir, "emacs"@);
    assert(!t.contains("nano"@)) by {
        if t.contains("nano"@) {
            let k = choose|k: int| 0 <= k < t.len() && t[k] == "nano"@;
            assert(t[k][0] == 'n' && t[k].len() == 4);
        }
    }
    assert(seq!["nano"@][0] == "nano"@);
    assert(!t.contains("emacs"@)) by {
        if t.contains("emacs"@) {
            let k = choose|k: int| 0 <= k < t.len() && t[k] == "emacs"@;
            assert(t[k].len() == 5 && t[k][0] == 'e');
        }
    }
    assert(!seq!["nano"@].contains("emacs"@)) by {
        if seq!["nano"@].contains("emacs"@) {
            let k = choose|k: int| 0 <= k < 1 && seq!["nano"@][k] == "emacs"@;
            assert(seq!["nano"@][k].len() == 4);
        }
    }
    assert(seq!["emacs"@, "emacsclient"@][0] == "emacs"@);
}

/// `text` trimmed, or none when blank.
pub open spec fn nonblank(text: Seq<char>) -> Option<Seq<char>> {
    if trim(text).len() > 0 {
        Some(trim(text))
    } else {
        None
    }
}

/// `o`'s text trimmed, or none when absent or blank.
fn nonblank_exec(o: Option<&str>) -> (r: Option<String>)
    ensures
        match o {
            Some(t) => match nonblank(t@) {
                Some(v) => r matches Some(x) && x@ == v,
                None => r is None,
            },
            None => r is None,
        },
{
    match o {
        Some(t) => {
            let v = trim_chars(&chars_of(t));
            if v.len() > 0 {
                Some(string_of(&v))
            } else {
                None
            }
        },
        None => None,
    }
}

/// The text of an optional string.
pub open spec fn opt_text(o: Option<String>) -> Option<Seq<char>> {
    match o {
        Some(s) => Some(s@),
        None => None,
    }
}

/// The text of an optional string slice.
pub open spec fn opt_str(o: Option<&str>) -> Option<Seq<char>> {
    match o {
        Some(s) => Some(s@),
        None => None,
    }
}

/// The editor to use: the configured one, else the value of `$EDITOR`
/// (`editor_var`), each trimmed and only when not blank; else `vi`.
pub open spec fn editor_choice(configured: Option<Seq<char>>, editor_var: Option<Seq<char>>) -> Seq<
    char,
> {
    match configured {
        Some(c) if nonblank(c) is Some => nonblank(c)->Some_0,
        _ => match editor_var {
            Some(v) if nonblank(v) is Some => nonblank(v)->Some_0,
            _ => "vi"@,
        },
    }
}

impl EditorLauncher {
    /// The editor command to use, given the value of `$EDITOR`.
    pub fn get_editor(config: &Config, editor_var: Option<&str>) -> (r: String)
        ensures
            r@ == editor_choice(opt_text(config.editor), opt_str(editor_var)),
    {
        let configured = match &config.editor {
            Some(e) => nonblank_exec(Some(e.as_str())),
            None => None,
        };
        match configured {
            Some(c) => c,
            None => match nonblank_exec(editor_var) {
                Some(v) => v,
                None => String::from_str("vi"),
            },
        }
    }
}

// ---------------------------------------------------------------------------
// Finding a PDF.
// ---------------------------------------------------------------------------

/// `s` without any leading or trailing `c` (`str::trim_matches`).
pub open spec fn trim_char(s: Seq<char>, c: char) -> Seq<char>
    decreases s.len(),
{
    if s.len() > 0 && s[0] == c {
        trim_char(s.drop_first(), c)
    } else if s.len() > 0 && s.last() == c {
        trim_char(s.drop_last(), c)
    } else {
        s
    }
}

/// `s` trimmed of whitespace, then of braces, then of double quotes.
pub open spec fn clean_segment(s: Seq<char>) -> Seq<char> {
    trim_char(trim_char(trim_char(trim(s), '{'), '}'), '"')
}

/// The last position of `c` in `s`.
pub open spec fn rfind_char(s: Seq<char>, c: char) -> Option<int>
    decreases s.len(),
{
    if s.len() == 0 {
        None
    } else if s.last() == c {
        Some(s.len() - 1)
    } else {
        rfind_char(s.drop_last(), c)
    }
}

/// Whether `v` names a PDF file (ends with `.pdf` in any letter case).
pub open spec fn looks_like_pdf_spec(v: Seq<char>) -> bool {
    ends_with(lower_seq(v), ".pdf"@)
}

/// The paths a cleaned `file` field segment may name: itself; the text up
/// to and including its first `.pdf`; and that text after its last colon,
/// unless the colon is a drive letter's.
pub open spec fn segment_candidates(seg: Seq<char>) -> Seq<Seq<char>> {
    match find(lower_seq(seg), ".pdf"@) {
        None => seq![seg],
        Some(i) => {
            let prefix = seg.subrange(0, i + 4);
            match rfind_char(prefix, ':') {
                Some(ci) => if ci == 1 && is_ascii_alpha(prefix[0]) {
                    seq![seg, prefix]
                } else {
                    seq![seg, prefix, prefix.subrange(ci + 1, prefix.len() as int)]
                },
                None => seq![seg, prefix],
            }
        },
    }
}

/// `c` as a path: absolute as it is, relative under `dir`.
pub open spec fn under_dir(dir: Seq<char>, c: Seq<char>) -> Seq<char> {
    if is_relative(c) {
        join_path(dir, c)
    } else {
        c
    }
}

/// The PDF paths that the candidate texts `cs` name, cleaned, keeping
/// those that look like PDFs, placed under `dir`.
pub open spec fn pdf_paths(cs: Seq<Seq<char>>, dir: Seq<char>) -> Seq<Seq<char>>
    decreases cs.len(),
{
    if cs.len() == 0 {
        Seq::empty()
    } else {
        let c = clean_segment(cs.last());
        pdf_paths(cs.drop_last(), dir) + if looks_like_pdf_spec(c) {
            seq![under_dir(dir, c)]
        } else {
            Seq::empty()
        }
    }
}

/// The PDF paths named by the `;`-separated segments of a `file` field,
/// in order.
pub open spec fn file_field_paths(segs: Seq<Seq<char>>, dir: Seq<char>) -> Seq<Seq<char>>
    decreases segs.len(),
{
    if segs.len() == 0 {
        Seq::empty()
    } else {
        let seg = clean_segment(segs.last());
        file_field_paths(segs.drop_last(), dir) + if seg.len() == 0 {
            Seq::empty()
        } else {
            pdf_paths(segment_candidates(seg), dir)
        }
    }
}

/// The directory of the entry's BibTeX file (`.` when it has none).
pub open spec fn bib_dir_of(e: Entry) -> Seq<char> {
    match parent_of(e.provenance.file_path@) {
        Some(d) => d,
        None => "."@,
    }
}

/// The name `file`.
pub open spec fn file_key() -> Seq<char> {
    seq!['f', 'i', 'l', 'e']
}

/// The places, in order of preference, where the PDF of `e` may be: the
/// paths its `file` field names, the `<key>.pdf` beside its BibTeX file,
/// and `<key>.pdf` in the PDF directory `pdf_dir`, if one is set.
pub open spec fn pdf_candidates_spec(e: Entry, pdf_dir: Option<Seq<char>>) -> Seq<Seq<char>> {
    let dir = bib_dir_of(e);
    let name = e.id.0@ + ".pdf"@;
    let from_field = match e.field(file_key()) {
        Some(v) => file_field_paths(split(v, seq![';']), dir),
        None => Seq::empty(),
    };
    from_field + seq![join_path(dir, name)] + match pdf_dir {
        Some(d) => seq![join_path(d, name)],
        None => Seq::empty(),
    }
}

proof fn lemma_join_path_suffix(base: Seq<char>, p: Seq<char>)
    ensures
        exists|pre: Seq<char>| #[trigger] (pre + p) == join_path(base, p),
{
    if p.len() > 0 && p[0] == '/' {
        assert(Seq::<char>::empty() + p =~= p);
        assert(Seq::<char>::empty() + p == join_path(base, p));
    } else if base.len() == 0 || base.last() == '/' {
        assert(base + p == join_path(base, p));
    } else {
        assert((base + seq!['/']) + p =~= base + seq!['/'] + p);
        assert((base + seq!['/']) + p == join_path(base, p));
    }
}

proof fn lemma_pdf_suffix(pre: Seq<char>, x: Seq<char>)
    requires
        looks_like_pdf_spec(x),
    ensures
        looks_like_pdf_spec(pre + x),
{
    reveal_strlit(".pdf");
    let q = ".pdf"@;
    assert(q.len() == 4);
    let lx = lower_seq(x);
    let l = lower_seq(pre + x);
    assert(l =~= lower_seq(pre) + lx);
    assert(l.subrange(l.len() - 4, l.len() as int) =~= lx.subrange(lx.len() - 4, lx.len() as int));
}

proof fn lemma_under_dir_pdf(dir: Seq<char>, c: Seq<char>)
    requires
        looks_like_pdf_spec(c),
    ensures
        looks_like_pdf_spec(under_dir(dir, c)),
{
    if is_relative(c) {
        lemma_join_path_suffix(dir, c);
        let pre = choose|pre: Seq<char>| #[trigger] (pre + c) == join_path(dir, c);
        lemma_pdf_suffix(pre, c);
    }
}

proof fn lemma_pdf_paths_pdf(cs: Seq<Seq<char>>, dir: Seq<char>)
    ensures
        forall|k: int| 0 <= k < pdf_paths(cs, dir).len() ==> looks_like_pdf_spec(#[trigger] pdf_paths(cs, dir)[k]),
    decreases cs.len(),
{
    if cs.len() > 0 {
        lemma_pdf_paths_pdf(cs.drop_last(), dir);
        let c = clean_segment(cs.last());
        let a = pdf_paths(cs.drop_last(), dir);
        let all = pdf_paths(cs, dir);
        if looks_like_pdf_spec(c) {
            lemma_under_dir_pdf(dir, c);
        }
        assert forall|k: int| 0 <= k < all.len() implies looks_like_pdf_spec(#[trigger] all[k]) by {
            if k < a.len() {
                assert(all[k] == a[k]);
            }
        }
    }
}

proof fn lemma_file_field_paths_pdf(segs: Seq<Seq<char>>, dir: Seq<char>)
    ensures
        forall|k: int|
            0 <= k < file_field_paths(segs, dir).len() ==> looks_like_pdf_spec(#[trigger] file_field_paths(segs, dir)[k]),
    decreases segs.len(),
{
    if segs.len() > 0 {
        lemma_file_field_paths_pdf(segs.drop_last(), dir);
        let seg = clean_segment(segs.last());
        let a = file_field_paths(segs.drop_last(), dir);
        let all = file_field_paths(segs, dir);
        if seg.len() > 0 {
            lemma_pdf_paths_pdf(segment_candidates(seg), dir);
        }
        assert forall|k: int| 0 <= k < all.len() implies looks_like_pdf_spec(#[trigger] all[k]) by {
            if k < a.len() {
                assert(all[k] == a[k]);
            }
        }
    }
}

/// Every place where an entry's PDF is looked for names a `.pdf` file (in
/// any letter case), so a PDF found is one.
pub proof fn lemma_pdf_candidates_are_pdfs(e: Entry, pdf_dir: Option<Seq<char>>)
    ensures
        forall|k: int|
            0 <= k < pdf_candidates_spec(e, pdf_dir).len() ==> looks_like_pdf_spec(
                #[trigger] pdf_candidates_spec(e, pdf_dir)[k],
            ),
{
    reveal_strlit(".pdf");
    let dir = bib_dir_of(e);
    let name = e.id.0@ + ".pdf"@;
    assert(".pdf"@ =~= seq!['.', 'p', 'd', 'f']);
    assert(lower_seq(".pdf"@) =~= ".pdf"@);
    assert(".pdf"@.subrange(0, 4) =~= ".pdf"@);
    assert(looks_like_pdf_spec(".pdf"@));
    lemma_pdf_suffix(e.id.0@, ".pdf"@);
    lemma_join_path_suffix(dir, name);
    let pre1 = choose|pre: Seq<char>| #[trigger] (pre + name) == join_path(dir, name);
    lemma_pdf_suffix(pre1, name);
    let from_field = match e.field(file_key()) {
        Some(v) => file_field_paths(split(v, seq![';']), dir),
        None => Seq::empty(),
    };
    match e.field(file_key()) {
        Some(v) => lemma_file_field_paths_pdf(split(v, seq![';']), dir),
        None => {},
    }
    let tail: Seq<Seq<char>> = match pdf_dir {
        Some(d) => seq![join_path(d, name)],
        None => Seq::empty(),
    };
    match pdf_dir {
        Some(d) => {
            lemma_join_path_suffix(d, name);
            let pre2 = choose|pre: Seq<char>| #[trigger] (pre + name) == join_path(d, name);
            lemma_pdf_suffix(pre2, name);
        },
        None => {},
    }
    let all = pdf_candidates_spec(e, pdf_dir);
    assert(all == from_field + seq![join_path(dir, name)] + tail);
    assert forall|k: int| 0 <= k < all.len() implies looks_like_pdf_spec(#[trigger] all[k]) by {
        if k < from_field.len() {
            assert(all[k] == from_field[k]);
        } else if k == from_field.len() {
            assert(all[k] == join_path(dir, name));
        } else {
            assert(all[k] == tail[k - from_field.len() - 1]);
        }
    }
}

/// The first index at or after `i` whose flag is set.
pub open spec fn first_set(flags: Seq<bool>, i: int) -> Option<int>
    decreases flags.len() - i,
{
    if i < 0 || i >= flags.len() {
        None
    } else if flags[i] {
        Some(i)
    } else {
        first_set(flags, i + 1)
    }
}

/// `trim_char` computed on `s[a..b]`, as bounds.
fn trim_char_bounds(s: &[char], a: usize, b: usize, c: char) -> (r: (usize, usize))
    requires
        a <= b <= s.len(),
    ensures
        a <= r.0 <= r.1 <= b,
        trim_char(s@.subrange(a as int, b as int), c) == s@.subrange(r.0 as int, r.1 as int),
{
    let mut x = a;
    let mut y = b;
    while x < y && s[x] == c
        invariant
            a <= x <= y <= b,
            b <= s.len(),
            trim_char(s@.subrange(a as int, b as int), c) == trim_char(
                s@.subrange(x as int, y as int),
                c,
            ),
        decreases y - x,
    {
        assert(s@.subrange(x as int, y as int).drop_first() =~= s@.subrange(x + 1, y as int));
        x += 1;
    }
    while x < y && s[y - 1] == c
        invariant
            a <= x <= y <= b,
            b <= s.len(),
            x < y ==> s@[x as int] != c,
            trim_char(s@.subrange(a as int, b as int), c) == trim_char(
                s@.subrange(x as int, y as int),
                c,
            ),
        decreases y - x,
    {
        assert(s@.subrange(x as int, y as int)[0] != c);
        assert(s@.subrange(x as int, y as int).drop_last() =~= s@.subrange(x as int, y - 1));
        y -= 1;
    }
    proof {
        if x < y {
            assert(s@.subrange(x as int, y as int)[0] != c);
            assert(s@.subrange(x as int, y as int).last() != c);
        }
    }
    (x, y)
}

/// `clean_segment(s)` as a new vector.
fn clean_segment_exec(s: &[char]) -> (r: Vec<char>)
    ensures
        r@ == clean_segment(s@),
{
    let (a0, b0) = trim_bounds(s, 0, s.len());
    assert(s@.subrange(0, s@.len() as int) =~= s@);
    let (a1, b1) = trim_char_bounds(s, a0, b0, '{');
    let (a2, b2) = trim_char_bounds(s, a1, b1, '}');
    let (a3, b3) = trim_char_bounds(s, a2, b2, '"');
    slice_range(s, a3, b3)
}

/// The last position of `c` in `s`.
pub fn rfind_char_exec(s: &[char], c: char) -> (r: Option<usize>)
    ensures
        r matches Some(i) ==> i < s@.len() && rfind_char(s@, c) == Some(i as int),
        r is None ==> rfind_char(s@, c) is None,
{
    let mut j = s.len();
    assert(s@.subrange(0, j as int) =~= s@);
    while j > 0 && s[j - 1] != c
        invariant
            j <= s@.len(),
            rfind_char(s@, c) == rfind_char(s@.subrange(0, j as int), c),
        decreases j,
    {
        assert(s@.subrange(0, j as int).drop_last() =~= s@.subrange(0, j - 1));
        j -= 1;
    }
    if j == 0 {
        None
    } else {
        Some(j - 1)
    }
}

/// Whether `value` names a PDF file.
pub fn looks_like_pdf(value: &[char]) -> (r: bool)
    ensures
        r == looks_like_pdf_spec(value@),
{
    let ext: Vec<char> = vec!['.', 'p', 'd', 'f'];
    proof {
        reveal_strlit(".pdf");
        assert(ext@ =~= ".pdf"@);
    }
    ends_with_exec(&to_ascii_lower(value), &ext)
}

/// `c` placed under `dir` when relative.
fn under_dir_exec(dir: &str, c: &[char]) -> (r: String)
    ensures
        r@ == under_dir(dir@, c@),
{
    if c.len() > 0 && c[0] == '/' {
        string_of(c)
    } else {
        join_path_text(dir, string_of(c).as_str())
    }
}

/// The PDF paths a `file` field names, placed under `bib_dir`.
pub fn resolve_pdf_from_file_field(raw: &str, bib_dir: &str) -> (r: Vec<String>)
    ensures
        texts(r@) == file_field_paths(split(raw@, seq![';']), bib_dir@),
{
    let semi: Vec<char> = vec![';'];
    assert(semi@ =~= seq![';']);
    let raw_chars = chars_of(raw);
    let segs = split_exec(&raw_chars, &semi);
    let ghost sv = split(raw@, seq![';']);
    let pdf_ext: Vec<char> = vec!['.', 'p', 'd', 'f'];
    proof {
        reveal_strlit(".pdf");
        assert(pdf_ext@ =~= ".pdf"@);
    }
    assert(pdf_ext@ =~= seq!['.', 'p', 'd', 'f']);
    let mut out: Vec<String> = Vec::new();
    let mut i: usize = 0;
    while i < segs.len()
        invariant
            i <= segs@.len(),
            segs@.len() == sv.len(),
            sv == split(raw@, seq![';']),
            pdf_ext@ == ".pdf"@,
            pdf_ext@ == seq!['.', 'p', 'd', 'f'],
            forall|k: int| 0 <= k < segs@.len() ==> #[trigger] segs@[k]@ == sv[k],
            texts(out@) == file_field_paths(sv.take(i as int), bib_dir@),
        decreases segs.len() - i,
    {
        assert(sv.take(i + 1).drop_last() =~= sv.take(i as int));
        assert(sv.take(i + 1).last() == segs@[i as int]@);
        let seg = clean_segment_exec(&segs[i]);
        if seg.len() > 0 {
            let ghost cv = segment_candidates(seg@);
            assert(seg@.subrange(0, seg@.len() as int) =~= seg@);
            let mut cands: Vec<Vec<char>> = Vec::new();
            cands.push(slice_range(&seg, 0, seg.len()));
            proof {
                lemma_find_from_bounds(lower_seq(seg@), pdf_ext@, 0);
            }
            let lowered = to_ascii_lower(&seg);
            assert(lowered@.len() == seg@.len());
            match find_exec(&lowered, &pdf_ext, 0) {
                Some(pi) => {
                    assert(crate::text::occurs_at(lowered@, pdf_ext@, pi as int));
                    assert(find(lower_seq(seg@), ".pdf"@) == Some(pi as int));
                    let prefix = slice_range(&seg, 0, pi + 4);
                    assert(prefix@.subrange(0, prefix@.len() as int) =~= prefix@);
                    match rfind_char_exec(&prefix, ':') {
                        Some(ci) => {
                            if !(ci == 1 && crate::text::is_ascii_alpha_char(prefix[0])) {
                                cands.push(slice_range(&prefix, 0, prefix.len()));
                                cands.push(slice_range(&prefix, ci + 1, prefix.len()));
                                assert(cands@.map_values(|c: Vec<char>| c@) =~= seq![
                                    seg@,
                                    prefix@,
                                    prefix@.subrange(ci + 1, prefix@.len() as int),
                                ]);
                            } else {
                                cands.push(slice_range(&prefix, 0, prefix.len()));
                                assert(cands@.map_values(|c: Vec<char>| c@) =~= seq![seg@, prefix@]);
                            }
                        },
                        None => {
                            cands.push(slice_range(&prefix, 0, prefix.len()));
                            assert(cands@.map_values(|c: Vec<char>| c@) =~= seq![seg@, prefix@]);
                        },
                    }
                },
                None => {
                    assert(find(lower_seq(seg@), ".pdf"@) is None);
                    assert(cands@.map_values(|c: Vec<char>| c@) =~= seq![seg@]);
                },
            }
            assert(cands@.map_values(|c: Vec<char>| c@) =~= cv);
            let ghost before = texts(out@);
            let mut j: usize = 0;
            while j < cands.len()
                invariant
                    j <= cands@.len(),
                    cands@.map_values(|c: Vec<char>| c@) == cv,
                    texts(out@) == before + pdf_paths(cv.take(j as int), bib_dir@),
                decreases cands.len() - j,
            {
                assert(cv.take(j + 1).drop_last() =~= cv.take(j as int));
                assert(cv[j as int] == cands@[j as int]@);
                let c = clean_segment_exec(&cands[j]);
                let ghost mid = texts(out@);
                if looks_like_pdf(&c) {
                    out.push(under_dir_exec(bib_dir, &c));
                    assert(texts(out@) =~= mid.push(under_dir(bib_dir@, c@)));
                } else {
                    assert(texts(out@) =~= mid);
                }
                assert(clean_segment(cv.take(j + 1).last()) == c@);
                j += 1;
                assert(texts(out@) =~= before + pdf_paths(cv.take(j as int), bib_dir@));
            }
            assert(cv.take(cands@.len() as int) =~= cv);
        }
        i += 1;
        assert(texts(out@) =~= file_field_paths(sv.take(i as int), bib_dir@));
    }
    assert(sv.take(segs@.len() as int) =~= sv);
    out
}

impl PdfLauncher {
    /// The places, in order of preference, where the PDF of `entry` may be
    /// (see `pdf_candidates_spec`); `pdf_dir` is the configured PDF
    /// directory, if it exists.
    pub fn pdf_candidates(entry: &Entry, pdf_dir: Option<&str>) -> (r: Vec<String>)
        ensures
            texts(r@) == pdf_candidates_spec(*entry, opt_str(pdf_dir)),
    {
        let dir = match parent(entry.provenance.file_path.as_str()) {
            Some(d) => d,
            None => String::from_str("."),
        };
        let mut name = entry.id.0.clone();
        name.append(".pdf");
        proof {
            reveal_strlit("file");
            assert("file"@ =~= file_key());
            assert(lower_seq(file_key()) =~= file_key());
        }
        let mut out = match entry.get_field("file") {
            Some(v) => resolve_pdf_from_file_field(v, dir.as_str()),
            None => Vec::new(),
        };
        let ghost head = texts(out@);
        out.push(join_path_text(dir.as_str(), name.as_str()));
        if let Some(d) = pdf_dir {
            out.push(join_path_text(d, name.as_str()));
        }
        assert(texts(out@) =~= pdf_candidates_spec(*entry, opt_str(pdf_dir)));
        out
    }

    /// The first candidate place (see `pdf_candidates`) that holds a file;
    /// `is_file[i]` says whether the `i`-th does.
    pub fn find_pdf(entry: &Entry, pdf_dir: Option<&str>, is_file: &[bool]) -> (r: Option<String>)
        requires
            is_file@.len() == pdf_candidates_spec(*entry, opt_str(pdf_dir)).len(),
        ensures
            match first_set(is_file@, 0) {
                Some(i) => r matches Some(p) && p@ == pdf_candidates_spec(*entry, opt_str(pdf_dir))[i],
                None => r is None,
            },
    {
        let candidates = Self::pdf_candidates(entry, pdf_dir);
        let mut i: usize = 0;
        while i < candidates.len()
            invariant
                i <= candidates@.len(),
                candidates@.len() == is_file@.len(),
                texts(candidates@) == pdf_candidates_spec(*entry, opt_str(pdf_dir)),
                first_set(is_file@, 0) == first_set(is_file@, i as int),
            decreases candidates.len() - i,
        {
            if is_file[i] {
                assert(texts(candidates@)[i as int] == candidates@[i as int]@);
                return Some(candidates[i].clone());
            }
            i += 1;
        }
        None
    }
}

/// The PDF openers looked for on the search path, in order.
pub open spec fn reader_candidates() -> Seq<Seq<char>> {
    seq!["xdg-open"@, "gio"@, "gnome-open"@, "kde-open"@]
}

/// The first opener whose flag in `found` is set.
pub open spec fn first_found_reader(found: Seq<bool>) -> Option<Seq<char>> {
    match first_set(found, 0) {
        Some(i) => if i < 4 {
            Some(reader_candidates()[i])
        } else {
            None
        },
        None => None,
    }
}

/// Whether `which::which(name)` finds the program `name` on the search
/// path. That depends on the environment and the file system, so nothing
/// is claimed of the result.
#[verifier::external_body]
fn program_on_path(name: &str) -> bool {
    which::which(name).is_ok()
}

/// The operating system a program runs on, as far as choosing a PDF
/// reader goes.
#[derive(Debug, Clone, Copy, PartialEq, Eq, Structural)]
pub enum Platform {
    MacOs,
    Windows,
    /// A Unix other than macOS.
    OtherUnix,
}

/// The reader a platform always has: `open` on macOS, `cmd /C start` on
/// Windows; none elsewhere (it must be found on the search path).
pub open spec fn platform_reader(p: Platform) -> Option<Seq<char>> {
    match p {
        Platform::MacOs => Some("open"@),
        Platform::Windows => Some("cmd /C start"@),
        Platform::OtherUnix => None,
    }
}

/// Whether the reader command `program` with `args` is Windows' `cmd /C
/// start` (in any letter case) on Windows, which takes a window title
/// before the file.
pub open spec fn start_needs_title(program: Seq<char>, args: Seq<Seq<char>>, platform: Platform) -> bool {
    &&& platform == Platform::Windows
    &&& lower_seq(program) == seq!['c', 'm', 'd']
    &&& args.len() >= 2
    &&& lower_seq(args[0]) == seq!['/', 'c']
    &&& lower_seq(args[1]) == seq!['s', 't', 'a', 'r', 't']
}

/// The first of the PDF openers (`xdg-open`, `gio`, `gnome-open`,
/// `kde-open`) that is on the search path: for some flags telling which of
/// them are found, the first one flagged, or none when none is.
fn system_default_reader() -> (r: Option<String>)
    ensures
        exists|found: Seq<bool>| found.len() == 4 && #[trigger] first_found_reader(found) == opt_text(r),
{
    let names: [&str; 4] = ["xdg-open", "gio", "gnome-open", "kde-open"];
    assert(crate::config::validate::strs_view(names@) =~= reader_candidates());
    let mut i: usize = 0;
    while i < 4
        invariant
            i <= 4,
            crate::config::validate::strs_view(names@) == reader_candidates(),
        decreases 4 - i,
    {
        if program_on_path(names[i]) {
            assert(reader_candidates()[i as int] == names@[i as int]@);
            let r = Some(names[i].to_owned());
            let ghost found = Seq::new(4, |k: int| k == i as int);
            assert(first_set(found, 0) == Some(i as int)) by {
                reveal_with_fuel(first_set, 5);
            }
            assert(first_found_reader(found) == opt_text(r));
            return r;
        }
        i += 1;
    }
    let ghost none_found = Seq::new(4, |k: int| false);
    assert(first_set(none_found, 0) is None) by {
        reveal_with_fuel(first_set, 5);
    }
    assert(first_found_reader(none_found) == opt_text(None));
    None
}

impl PdfLauncher {
    /// The PDF reader to use on `platform` when `found[i]` says whether the
    /// `i`-th of the Unix PDF openers is on the search path: the configured
    /// one (trimmed) when not blank; else the platform's own reader on macOS
    /// and Windows; else the first opener found.
    pub fn reader_from(config: &Config, platform: Platform, found: &[bool]) -> (r: Option<String>)
        requires
            found@.len() == 4,
        ensures
            match opt_text(config.pdf_reader) {
                Some(c) if nonblank(c) is Some => r matches Some(x) && x@ == nonblank(c)->Some_0,
                _ => match platform_reader(platform) {
                    Some(n) => r matches Some(x) && x@ == n,
                    None => match first_found_reader(found@) {
                        Some(n) => r matches Some(x) && x@ == n,
                        None => r is None,
                    },
                },
            },
    {
        let configured = match &config.pdf_reader {
            Some(p) => nonblank_exec(Some(p.as_str())),
            None => None,
        };
        if let Some(c) = configured {
            return Some(c);
        }
        match platform {
            Platform::MacOs => return Some(String::from_str("open")),
            Platform::Windows => return Some(String::from_str("cmd /C start")),
            Platform::OtherUnix => {},
        }
        let names: [&str; 4] = ["xdg-open", "gio", "gnome-open", "kde-open"];
        assert(crate::config::validate::strs_view(names@) =~= reader_candidates());
        let mut i: usize = 0;
        while i < 4
            invariant
                i <= 4,
                found@.len() == 4,
                crate::config::validate::strs_view(names@) == reader_candidates(),
                first_set(found@, 0) == first_set(found@, i as int),
                !(opt_text(config.pdf_reader) matches Some(c) && nonblank(c) is Some),
                platform == Platform::OtherUnix,
            decreases 4 - i,
        {
            if found[i] {
                assert(reader_candidates()[i as int] == names@[i as int]@);
                return Some(names[i].to_owned());
            }
            i += 1;
        }
        None
    }

    /// The PDF reader to use on `platform`: the configured one (trimmed)
    /// when not blank; else `open` on macOS and `cmd /C start` on Windows;
    /// else the first of the Unix PDF openers found on the search path (for
    /// some flags telling which are found, as `reader_from` states).
    pub fn get_reader(config: &Config, platform: Platform) -> (r: Option<String>)
        ensures
            match opt_text(config.pdf_reader) {
                Some(c) if nonblank(c) is Some => r matches Some(x) && x@ == nonblank(c)->Some_0,
                _ => match platform_reader(platform) {
                    Some(n) => r matches Some(x) && x@ == n,
                    None => exists|found: Seq<bool>|
                        found.len() == 4 && #[trigger] first_found_reader(found) == opt_text(r),
                },
            },
    {
        let configured = match &config.pdf_reader {
            Some(p) => nonblank_exec(Some(p.as_str())),
            None => None,
        };
        match configured {
            Some(c) => Some(c),
            None => match platform {
                Platform::MacOs => Some(String::from_str("open")),
                Platform::Windows => Some(String::from_str("cmd /C start")),
                Platform::OtherUnix => system_default_reader(),
            },
        }
    }

    /// The arguments for the reader command `program` with `args` to open
    /// `pdf` on `platform`: the PDF path after the arguments, and, for
    /// Windows' `cmd /C start` (in any letter case), an empty title before
    /// it, which `start` expects.
    pub fn reader_arguments(program: &str, args: Vec<String>, platform: Platform, pdf: &str) -> (r: Vec<String>)
        ensures
            texts(r@) == texts(args@) + (if start_needs_title(program@, texts(args@), platform) {
                seq![Seq::<char>::empty(), pdf@]
            } else {
                seq![pdf@]
            }),
    {
        let cmd: Vec<char> = vec!['c', 'm', 'd'];
        let slash_c: Vec<char> = vec!['/', 'c'];
        let start: Vec<char> = vec!['s', 't', 'a', 'r', 't'];
        assert(cmd@ =~= seq!['c', 'm', 'd']);
        assert(slash_c@ =~= seq!['/', 'c']);
        assert(start@ =~= seq!['s', 't', 'a', 'r', 't']);
        let title = platform == Platform::Windows && chars_eq(&to_ascii_lower(&chars_of(program)), &cmd)
            && args.len() >= 2 && chars_eq(&to_ascii_lower(&chars_of(args[0].as_str())), &slash_c)
            && chars_eq(&to_ascii_lower(&chars_of(args[1].as_str())), &start);
        let mut out = args;
        let ghost before = out@;
        if title {
            out.push(String::new());
        }
        out.push(pdf.to_owned());
        if title {
            assert(texts(out@) =~= texts(before) + seq![Seq::<char>::empty(), pdf@]);
        } else {
            assert(texts(out@) =~= texts(before) + seq![pdf@]);
        }
        out
    }
}

} // verus!
