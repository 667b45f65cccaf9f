//! File-system paths in the settings, handled as text: joining, `~`
//! expansion, and resolving relative paths against the configuration
//! file's directory.
use vstd::prelude::*;

use crate::text::{chars_of, push_str_chars, starts_with, string_of};
use super::Config;

verus! {

/// `p` appended to `base` as `Path::join` does on Unix: an absolute `p`
/// replaces `base`; otherwise a `/` separates them unless `base` is empty
/// or already ends in one.
pub open spec fn join_path(base: Seq<char>, p: Seq<char>) -> Seq<char> {
    if p.len() > 0 && p[0] == '/' {
        p
    } else if base.len() == 0 || base.last() == '/' {
        base + p
    } else {
        base + seq!['/'] + p
    }
}

/// Whether `p` is relative (does not start at the root).
pub open spec fn is_relative(p: Seq<char>) -> bool {
    !(p.len() > 0 && p[0] == '/')
}

/// `p` with a leading `~` (alone, or before `/`) replaced by the home
/// directory `home`; unchanged when there is no home directory.
pub open spec fn expand_tilde_spec(p: Seq<char>, home: Option<Seq<char>>) -> Seq<char> {
    if p == seq!['~'] {
        match home {
            Some(h) => h,
            None => p,
        }
    } else if starts_with(p, seq!['~', '/']) {
        match home {
            Some(h) => join_path(h, p.subrange(2, p.len() as int)),
            None => p,
        }
    } else {
        p
    }
}

/// `p` after `~` expansion, made absolute against `base` when relative.
pub open spec fn resolve_spec(base: Seq<char>, p: Seq<char>, home: Option<Seq<char>>) -> Seq<char> {
    let e = expand_tilde_spec(p, home);
    if is_relative(e) {
        join_path(base, e)
    } else {
        e
    }
}

/// The text of an optional string.
pub open spec fn opt_view(o: Option<&str>) -> Option<Seq<char>> {
    match o {
        Some(s) => Some(s@),
        None => None,
    }
}

/// `Path::join` on text.
pub fn join_path_text(base: &str, p: &str) -> (r: String)
    ensures
        r@ == join_path(base@, p@),
{
    let b = chars_of(base);
    let q = chars_of(p);
    if q.len() > 0 && q[0] == '/' {
        return p.to_owned();
    }
    let mut out = base.to_owned();
    if !(b.len() == 0 || b[b.len() - 1] == '/') {
        out.push('/');
    }
    push_str_chars(&mut out, &q);
    out
}

/// Replaces a leading `~` by the home directory `home`.
pub fn expand_tilde(path: &str, home: Option<&str>) -> (r: String)
    ensures
        r@ == expand_tilde_spec(path@, opt_view(home)),
{
    let p = chars_of(path);
    if p.len() == 1 && p[0] == '~' {
        assert(p@ =~= seq!['~']);
        return match home {
            Some(h) => h.to_owned(),
            None => path.to_owned(),
        };
    }
    assert(p@ != seq!['~'] ==> !(p@ =~= seq!['~']));
    if p.len() >= 2 && p[0] == '~' && p[1] == '/' {
        assert(p@.subrange(0, 2) =~= seq!['~', '/']);
        if let Some(h) = home {
            let rest = string_of(&crate::text::slice_range(&p, 2, p.len()));
            return join_path_text(h, rest.as_str());
        }
    } else {
        assert(!starts_with(p@, seq!['~', '/'])) by {
            if starts_with(p@, seq!['~', '/']) {
                assert(p@.subrange(0, 2)[0] == '~');
                assert(p@.subrange(0, 2)[1] == '/');
            }
        }
    }
    path.to_owned()
}

/// `path` with `~` expanded and, when relative, placed under `base_dir`.
pub fn resolve_relative_path(base_dir: &str, path: &str, home: Option<&str>) -> (r: String)
    ensures
        r@ == resolve_spec(base_dir@, path@, opt_view(home)),
{
    let e = expand_tilde(path, home);
    let c = chars_of(e.as_str());
    if c.len() > 0 && c[0] == '/' {
        e
    } else {
        join_path_text(base_dir, e.as_str())
    }
}

impl Config {
    /// Resolves the BibTeX files, the notes directory and the template file
    /// against `base_dir`, the directory of the configuration file.
    pub fn resolve_relative_paths(&mut self, base_dir: &str, home: Option<&str>)
        ensures
            final(self).bibtex_files@.len() == old(self).bibtex_files@.len(),
            forall|i: int|
                0 <= i < old(self).bibtex_files@.len() ==> (#[trigger] final(self).bibtex_files@[i])@
                    == resolve_spec(base_dir@, old(self).bibtex_files@[i]@, opt_view(home)),
            final(self).notes.notes_dir@ == resolve_spec(
                base_dir@,
                old(self).notes.notes_dir@,
                opt_view(home),
            ),
            old(self).notes.template_file is None ==> final(self).notes.template_file is None,
            old(self).notes.template_file matches Some(t) ==> final(self).notes.template_file matches Some(
                u,
            ) && u@ == resolve_spec(base_dir@, t@, opt_view(home)),
            final(self).keybindings == old(self).keybindings,
            final(self).search == old(self).search,
            final(self).display == old(self).display,
            final(self).preview == old(self).preview,
            final(self).theme == old(self).theme,
            final(self).editor == old(self).editor,
            final(self).pdf_reader == old(self).pdf_reader,
            final(self).mouse_enabled == old(self).mouse_enabled,
            final(self).notes.filename_pattern == old(self).notes.filename_pattern,
    {
        let mut files: Vec<String> = Vec::new();
        let mut i: usize = 0;
        while i < self.bibtex_files.len()
            invariant
                i <= self.bibtex_files@.len(),
                self.bibtex_files == old(self).bibtex_files,
                files@.len() == i,
                forall|k: int|
                    0 <= k < i ==> (#[trigger] files@[k])@ == resolve_spec(
                        base_dir@,
                        self.bibtex_files@[k]@,
                        opt_view(home),
                    ),
            decreases self.bibtex_files.len() - i,
        {
            files.push(resolve_relative_path(base_dir, self.bibtex_files[i].as_str(), home));
            i += 1;
        }
        self.bibtex_files = files;
        self.notes.notes_dir = resolve_relative_path(base_dir, self.notes.notes_dir.as_str(), home);
        let template = match &self.notes.template_file {
            Some(t) => Some(resolve_relative_path(base_dir, t.as_str(), home)),
            None => None,
        };
        self.notes.template_file = template;
    }
}

/// The notes directory inside the application data directory `data_dir`,
/// or `.local/share/bibr/notes` when there is none.
pub fn notes_dir_in(data_dir: Option<&str>) -> (r: String)
    ensures
        match data_dir {
            Some(d) => r@ == join_path(d@, "notes"@),
            None => r@ == ".local/share/bibr/notes"@,
        },
{
    match data_dir {
        Some(d) => join_path_text(d, "notes"),
        None => String::from_str(".local/share/bibr/notes"),
    }
}

/// The per-user data directory for this application that
/// `directories::ProjectDirs::from("", "", "bibr")` finds, through
/// `data_local_dir`, as text. It depends on the environment, so nothing is
/// claimed of it.
#[verifier::external_body]
fn project_data_local_dir() -> Option<String> {
    directories::ProjectDirs::from("", "", "bibr").map(|d| d.data_local_dir().to_string_lossy().into_owned())
}

/// The configuration file read when none is named: `.config/bibr/bibr.toml`
/// under the home directory `home`; an error when there is none.
pub fn default_config_path(home: Option<&str>) -> (r: Result<String, String>)
    ensures
        match home {
            Some(h) => r matches Ok(p) && p@ == join_path(
                join_path(join_path(h@, ".config"@), "bibr"@),
                "bibr.toml"@,
            ),
            None => r matches Err(m) && m@ == "HOME environment variable not set"@,
        },
{
    match home {
        Some(h) => {
            let a = join_path_text(h, ".config");
            let b = join_path_text(a.as_str(), "bibr");
            Ok(join_path_text(b.as_str(), "bibr.toml"))
        },
        None => Err(String::from_str("HOME environment variable not set")),
    }
}

/// The default notes directory: `notes` in the per-user data directory of
/// the application, or `.local/share/bibr/notes` when it cannot be found.
pub fn default_notes_dir() -> (r: String)
    ensures
        r@ == ".local/share/bibr/notes"@ || exists|d: Seq<char>| r@ == join_path(d, "notes"@),
{
    match project_data_local_dir() {
        Some(d) => notes_dir_in(Some(d.as_str())),
        None => notes_dir_in(None),
    }
}

/// `p` without trailing `/` and `/.` parts.
pub open spec fn strip_tail(p: Seq<char>) -> Seq<char>
    decreases p.len(),
{
    if p.len() > 0 && p.last() == '/' {
        strip_tail(p.drop_last())
    } else if p.len() >= 2 && p[p.len() - 2] == '/' && p.last() == '.' {
        strip_tail(p.drop_last().drop_last())
    } else {
        p
    }
}

/// The part of `q` after its last `/`.
pub open spec fn after_last_slash(q: Seq<char>) -> Seq<char>
    decreases q.len(),
{
    if q.len() == 0 {
        q
    } else if q.last() == '/' {
        Seq::empty()
    } else {
        after_last_slash(q.drop_last()).push(q.last())
    }
}

/// The last component of `p` (`Path::file_name`): none for an empty
/// path, the root, `.` or `..`.
pub open spec fn file_name_of(p: Seq<char>) -> Option<Seq<char>> {
    let n = after_last_slash(strip_tail(p));
    if n.len() == 0 || n == seq!['.'] || n == seq!['.', '.'] {
        None
    } else {
        Some(n)
    }
}

/// `p` without its last component (`Path::parent`): none for an empty path
/// or the root.
pub open spec fn parent_of(p: Seq<char>) -> Option<Seq<char>> {
    let q = strip_tail(p);
    let n = after_last_slash(q);
    if n.len() == 0 {
        None
    } else {
        let pre = q.subrange(0, q.len() - n.len());
        if pre.len() > 0 && strip_tail(pre).len() == 0 {
            Some(seq!['/'])
        } else {
            Some(strip_tail(pre))
        }
    }
}

proof fn lemma_after_last_slash(q: Seq<char>)
    ensures
        after_last_slash(q).len() <= q.len(),
        after_last_slash(q) == q.subrange(q.len() - after_last_slash(q).len(), q.len() as int),
        after_last_slash(q).len() < q.len() ==> q[q.len() - after_last_slash(q).len() - 1] == '/',
        forall|i: int|
            q.len() - after_last_slash(q).len() <= i < q.len() ==> #[trigger] q[i] != '/',
    decreases q.len(),
{
    if q.len() > 0 && q.last() != '/' {
        lemma_after_last_slash(q.drop_last());
        assert(after_last_slash(q) =~= q.subrange(
            q.len() - after_last_slash(q).len(),
            q.len() as int,
        ));
        assert forall|i: int|
            q.len() - after_last_slash(q).len() <= i < q.len() implies #[trigger] q[i] != '/' by {
            if i < q.len() - 1 {
                assert(q[i] == q.drop_last()[i]);
            }
        }
    }
}

/// `s[0..end]` without trailing `/` and `/.` parts, as an end index.
fn strip_tail_end(s: &[char], end: usize) -> (r: usize)
    requires
        end <= s.len(),
    ensures
        r <= end,
        strip_tail(s@.subrange(0, end as int)) == s@.subrange(0, r as int),
{
    let mut e = end;
    loop
        invariant
            e <= end <= s@.len(),
            strip_tail(s@.subrange(0, end as int)) == strip_tail(s@.subrange(0, e as int)),
        ensures
            e <= end,
            strip_tail(s@.subrange(0, end as int)) == s@.subrange(0, e as int),
        decreases e,
    {
        if e > 0 && s[e - 1] == '/' {
            assert(s@.subrange(0, e as int).drop_last() =~= s@.subrange(0, e - 1));
            e -= 1;
        } else if e >= 2 && s[e - 2] == '/' && s[e - 1] == '.' {
            assert(s@.subrange(0, e as int).drop_last().drop_last() =~= s@.subrange(0, e - 2));
            e -= 2;
        } else {
            break;
        }
    }
    e
}

/// The start of the last component of `s[0..end]`.
fn last_slash_end(s: &[char], end: usize) -> (r: usize)
    requires
        end <= s.len(),
    ensures
        r <= end,
        after_last_slash(s@.subrange(0, end as int)) == s@.subrange(r as int, end as int),
{
    let ghost q = s@.subrange(0, end as int);
    proof {
        lemma_after_last_slash(q);
    }
    let mut start = end;
    while start > 0 && s[start - 1] != '/'
        invariant
            start <= end <= s@.len(),
            q == s@.subrange(0, end as int),
            forall|i: int| start <= i < end ==> #[trigger] s@[i] != '/',
        decreases start,
    {
        start -= 1;
    }
    proof {
        let n = after_last_slash(q);
        let k = q.len() - n.len();
        // Both `k` and `start` are just after the last slash before `end`.
        if k < start {
            assert(q[start - 1] == s@[start - 1]);
            assert(s@[start - 1] == '/');
            assert(q[start - 1] != '/');
        }
        if start < k {
            assert(q[k - 1] == '/');
            assert(s@[k - 1] != '/');
        }
        assert(k == start);
        assert(n =~= s@.subrange(start as int, end as int));
    }
    start
}

/// The last component of `path` (`Path::file_name`).
pub fn file_name(path: &str) -> (r: Option<String>)
    ensures
        match file_name_of(path@) {
            Some(n) => r matches Some(x) && x@ == n,
            None => r is None,
        },
{
    let c = chars_of(path);
    assert(c@.subrange(0, c@.len() as int) =~= c@);
    let e = strip_tail_end(&c, c.len());
    let st = last_slash_end(&c, e);
    assert(c@.subrange(0, e as int).subrange(0, e as int) =~= c@.subrange(0, e as int));
    let name = crate::text::slice_range(&c, st, e);
    if name.len() == 0 || (name.len() == 1 && name[0] == '.') || (name.len() == 2 && name[0] == '.'
        && name[1] == '.') {
        proof {
            if name@.len() == 1 {
                assert(name@ =~= seq!['.']);
            }
            if name@.len() == 2 {
                assert(name@ =~= seq!['.', '.']);
            }
        }
        None
    } else {
        assert(name@ != seq!['.']) by {
            if name@ == seq!['.'] {
                assert(name@.len() == 1 && name@[0] == '.');
            }
        }
        assert(name@ != seq!['.', '.']) by {
            if name@ == seq!['.', '.'] {
                assert(name@.len() == 2 && name@[0] == '.' && name@[1] == '.');
            }
        }
        Some(string_of(&name))
    }
}

/// `path` without its last component (`Path::parent`).
pub fn parent(path: &str) -> (r: Option<String>)
    ensures
        match parent_of(path@) {
            Some(d) => r matches Some(x) && x@ == d,
            None => r is None,
        },
{
    let c = chars_of(path);
    assert(c@.subrange(0, c@.len() as int) =~= c@);
    let e = strip_tail_end(&c, c.len());
    let st = last_slash_end(&c, e);
    let ghost q = c@.subrange(0, e as int);
    assert(q.subrange(0, e as int) =~= q);
    assert(strip_tail(path@) == q);
    assert(after_last_slash(q) == c@.subrange(st as int, e as int));
    if st == e {
        return None;
    }
    assert(q.subrange(0, q.len() - (e - st)) =~= c@.subrange(0, st as int));
    let pe = strip_tail_end(&c, st);
    assert(strip_tail(c@.subrange(0, st as int)) == c@.subrange(0, pe as int));
    if st > 0 && pe == 0 {
        assert(c@.subrange(0, 0) =~= Seq::<char>::empty());
        proof {
            reveal_strlit("/");
            assert("/"@ =~= seq!['/']);
        }
        Some(String::from_str("/"))
    } else {
        let ghost pre = q.subrange(0, q.len() - after_last_slash(q).len());
        assert(pre == c@.subrange(0, st as int));
        assert(!(pre.len() > 0 && strip_tail(pre).len() == 0));
        assert(parent_of(path@) == Some(strip_tail(pre)));
        Some(string_of(&crate::text::slice_range(&c, 0, pe)))
    }
}

} // verus!
