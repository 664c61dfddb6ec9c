//! Focus stack derived from the assistant's tool-execution events: typed
//! focus entries, the navigable history with follow mode, and the
//! mapping from tool events and shell commands to entries.

use vstd::prelude::*;
use vstd::string::StrSliceExecFns;
use vstd::string::StringExecFns;
use crate::text::contains_seq;
use crate::text::any_contains;
use crate::text::any_contains_str;
use crate::text::first_token;
use crate::text::first_token_spec;
use crate::text::join_spec;
use crate::text::join_strings;
use crate::text::str_eq;
use crate::text::starts_with_str;
use crate::text::strip_prefix_str;
use crate::text::strip_quotes_spec;
use crate::text::trim;
use crate::text::trim_quotes;
use crate::text::trim_spec;
use crate::text::ws_dropped;
use crate::transport::ToolEvent;
use crate::transport::ToolEventView;

verus! {

/// A typed focus entry derived from a tool execution event.
#[derive(Debug, Clone)]
pub enum FocusEntry {
    File(String),
    Directory(String),
    Branch(String),
    Commit(String),
}

/// Ghost shape of a focus entry: its kind and its text.
pub ghost enum FocusEntryView {
    File(Seq<char>),
    Directory(Seq<char>),
    Branch(Seq<char>),
    Commit(Seq<char>),
}

impl View for FocusEntry {
    type V = FocusEntryView;

    open spec fn view(&self) -> FocusEntryView {
        match self {
            FocusEntry::File(p) => FocusEntryView::File(p@),
            FocusEntry::Directory(p) => FocusEntryView::Directory(p@),
            FocusEntry::Branch(s) => FocusEntryView::Branch(s@),
            FocusEntry::Commit(s) => FocusEntryView::Commit(s@),
        }
    }
}

impl PartialEq for FocusEntry {
    /// Two entries are equal when they have the same kind and text.
    fn eq(&self, other: &FocusEntry) -> (r: bool) {
        match (self, other) {
            (FocusEntry::File(a), FocusEntry::Directory(b)) => false,
            (FocusEntry::File(a), FocusEntry::File(b)) => str_eq(a.as_str(), b.as_str()),
            (FocusEntry::Directory(a), FocusEntry::Directory(b)) => str_eq(
                a.as_str(),
                b.as_str(),
            ),
            (FocusEntry::Branch(a), FocusEntry::Branch(b)) => str_eq(a.as_str(), b.as_str()),
            (FocusEntry::Commit(a), FocusEntry::Commit(b)) => str_eq(a.as_str(), b.as_str()),
            _ => false,
        }
    }
}

impl vstd::std_specs::cmp::PartialEqSpecImpl for FocusEntry {
    open spec fn obeys_eq_spec() -> bool {
        true
    }

    open spec fn eq_spec(&self, other: &FocusEntry) -> bool {
        self@ == other@
    }
}

impl Eq for FocusEntry {

}

/// The kind of an entry, as it appears in context text.
pub open spec fn kind_name_spec(e: FocusEntryView) -> Seq<char> {
    match e {
        FocusEntryView::File(_) => "file"@,
        FocusEntryView::Directory(_) => "directory"@,
        FocusEntryView::Branch(_) => "branch"@,
        FocusEntryView::Commit(_) => "commit"@,
    }
}

/// The text carried by an entry.
pub open spec fn value_spec(e: FocusEntryView) -> Seq<char> {
    match e {
        FocusEntryView::File(p) => p,
        FocusEntryView::Directory(p) => p,
        FocusEntryView::Branch(s) => s,
        FocusEntryView::Commit(s) => s,
    }
}

impl FocusEntry {
    /// Type name for context text.
    pub fn kind_name(&self) -> (r: &str)
        ensures
            r@ == kind_name_spec(self@),
    {
        match self {
            FocusEntry::File(_) => "file",
            FocusEntry::Directory(_) => "directory",
            FocusEntry::Branch(_) => "branch",
            FocusEntry::Commit(_) => "commit",
        }
    }

    /// The value string for context display.
    pub fn value_str(&self) -> (r: String)
        ensures
            r@ == value_spec(self@),
    {
        match self {
            FocusEntry::File(p) => p.clone(),
            FocusEntry::Directory(p) => p.clone(),
            FocusEntry::Branch(s) => s.clone(),
            FocusEntry::Commit(s) => s.clone(),
        }
    }

    /// One line for the history list: a kind marker glyph, then the
    /// entry's text — for a file, just the final path component.
    pub fn display_label(&self) -> (r: String)
        ensures
            r@ == label_spec(self@),
    {
        match self {
            FocusEntry::File(p) => {
                let mut s = String::from_str("\u{1F4C4} ");
                s.append(file_name(p.as_str()));
                s
            },
            FocusEntry::Directory(p) => {
                let mut s = String::from_str("\u{1F4C1} ");
                s.append(p.as_str());
                s
            },
            FocusEntry::Branch(n) => {
                let mut s = String::from_str("\u{1F33F} ");
                s.append(n.as_str());
                s
            },
            FocusEntry::Commit(h) => {
                let mut s = String::from_str("\u{1F4E6} ");
                s.append(h.as_str());
                s
            },
        }
    }
}

/// The display line of an entry.
pub open spec fn label_spec(e: FocusEntryView) -> Seq<char> {
    match e {
        FocusEntryView::File(p) => "\u{1F4C4} "@ + file_name_spec(p),
        FocusEntryView::Directory(p) => "\u{1F4C1} "@ + p,
        FocusEntryView::Branch(n) => "\u{1F33F} "@ + n,
        FocusEntryView::Commit(h) => "\u{1F4E6} "@ + h,
    }
}

/// Length of the run of non-separator characters at the end of `p`.
pub open spec fn trailing_run(p: Seq<char>) -> nat
    decreases p.len(),
{
    if p.len() > 0 && p.last() != '/' {
        1 + trailing_run(p.drop_last())
    } else {
        0
    }
}

/// The final component of a path: trailing separators dropped, then
/// what follows the last separator; empty for the current- and
/// parent-directory names.
pub open spec fn file_name_spec(p: Seq<char>) -> Seq<char> {
    let t = crate::text::drop_while_end(p, |c: char| c == '/');
    let name = t.skip(t.len() - trailing_run(t));
    if name == "."@ || name == ".."@ {
        Seq::empty()
    } else {
        name
    }
}

proof fn lemma_trailing_run_chars(p: Seq<char>, t: int)
    requires
        0 <= t <= p.len(),
        forall|k: int| p.len() - t <= k < p.len() ==> p[k] != '/',
        t < p.len() ==> p[p.len() - t - 1] == '/',
    ensures
        trailing_run(p) == t,
    decreases t,
{
    if t > 0 {
        assert(p.last() != '/');
        assert forall|k: int| p.drop_last().len() - (t - 1) <= k < p.drop_last().len() implies p.drop_last()[k] != '/' by {
            assert(p.drop_last()[k] == p[k]);
        }
        if t - 1 < p.drop_last().len() {
            assert(p.drop_last()[p.drop_last().len() - (t - 1) - 1] == p[p.len() - t - 1]);
        }
        lemma_trailing_run_chars(p.drop_last(), t - 1);
    } else {
        if p.len() > 0 {
            assert(p[p.len() - 1] == '/');
        }
    }
}

/// The final component of a path, as `file_name_spec` describes it.
pub fn file_name(p: &str) -> (r: &str)
    ensures
        r@ == file_name_spec(p@),
{
    proof {
        reveal_strlit("");
        reveal_strlit(".");
        reveal_strlit("..");
    }
    let ghost sep: spec_fn(char) -> bool = |c: char| c == '/';
    let n = p.unicode_len();
    let mut b: usize = n;
    while b > 0 && p.get_char(b - 1) == '/'
        invariant
            n == p@.len(),
            b <= n,
            forall|c: char| #[trigger] sep(c) == (c == '/'),
            forall|k: int| b <= k < n ==> sep(p@[k]),
        decreases b,
    {
        b = b - 1;
    }
    proof {
        crate::text::lemma_drop_while_end_take(p@, sep, b as int);
        if b > 0 {
            assert(!sep(p@.take(b as int).last())) by {
                assert(p@.take(b as int).last() == p@[b - 1]);
            }
            assert(crate::text::drop_while_end(p@.take(b as int), sep) == p@.take(b as int));
        } else {
            assert(p@.take(0) =~= Seq::<char>::empty());
            assert(crate::text::drop_while_end(p@.take(b as int), sep) == p@.take(b as int));
        }
    }
    let mut a: usize = b;
    while a > 0 && p.get_char(a - 1) != '/'
        invariant
            n == p@.len(),
            a <= b <= n,
            forall|k: int| a <= k < b ==> p@[k] != '/',
        decreases a,
    {
        a = a - 1;
    }
    let name = p.substring_char(a, b);
    proof {
        let t = p@.take(b as int);
        assert forall|k: int| t.len() - (b - a) <= k < t.len() implies t[k] != '/' by {
            assert(t[k] == p@[k]);
        }
        if b - a < t.len() {
            assert(t[t.len() - (b - a) - 1] == p@[a - 1]);
        }
        lemma_trailing_run_chars(t, b - a);
        assert(name@ =~= t.skip(t.len() - trailing_run(t)));
    }
    if str_eq(name, ".") || str_eq(name, "..") {
        ""
    } else {
        name
    }
}

/// The focus entry a shell command maps to, if any: `cd` targets become
/// directory focus, `git checkout`/`git switch` branch focus, and
/// `git commit` a pending commit focus.
pub open spec fn bash_focus_spec(s: Seq<char>) -> Option<FocusEntryView> {
    let t = trim_spec(s);
    if t == "cd"@ {
        Some(FocusEntryView::Directory("~"@))
    } else if has_prefix(t, "cd "@) {
        Some(FocusEntryView::Directory(strip_quotes_spec(trim_spec(t.skip("cd "@.len() as int)))))
    } else if has_prefix(t, "git checkout "@) {
        let rest = trim_spec(t.skip("git checkout "@.len() as int));
        if has_prefix(rest, "-b "@) {
            Some(FocusEntryView::Branch(trim_spec(rest.skip("-b "@.len() as int))))
        } else if ws_dropped(rest).len() > 0 {
            Some(FocusEntryView::Branch(first_token_spec(rest)))
        } else {
            None
        }
    } else if has_prefix(t, "git switch "@) {
        let rest = trim_spec(t.skip("git switch "@.len() as int));
        if has_prefix(rest, "-c "@) {
            Some(FocusEntryView::Branch(trim_spec(rest.skip("-c "@.len() as int))))
        } else if ws_dropped(rest).len() > 0 {
            Some(FocusEntryView::Branch(first_token_spec(rest)))
        } else {
            None
        }
    } else if has_prefix(t, "git commit"@) {
        Some(FocusEntryView::Commit("pending"@))
    } else {
        None
    }
}

/// Whether `p` is a prefix of `s`.
pub open spec fn has_prefix(s: Seq<char>, p: Seq<char>) -> bool {
    p.len() <= s.len() && s.take(p.len() as int) == p
}

/// Parse a bash command string into a focus entry, if relevant.
pub fn parse_bash_command(command: &str) -> (r: Option<FocusEntry>)
    ensures
        r is Some <==> bash_focus_spec(command@) is Some,
        r is Some ==> r->0@ == bash_focus_spec(command@)->0,
{
    proof {
        reveal_strlit("cd");
        reveal_strlit("cd ");
        reveal_strlit("git checkout ");
        reveal_strlit("git switch ");
        reveal_strlit("git commit");
        reveal_strlit("-b ");
        reveal_strlit("-c ");
    }
    let trimmed = trim(command);
    let ghost t = trim_spec(command@);

    // cd <path>
    if str_eq(trimmed, "cd") {
        return Some(FocusEntry::Directory(String::from_str("~")));
    }
    match strip_prefix_str(trimmed, "cd ") {
        Some(rest) => {
            proof {
                assert(t.take(3) =~= t.subrange(0, 3));
                assert(rest@ == t.skip(3));
            }
            let path = trim_quotes(trim(rest));
            return Some(FocusEntry::Directory(path.to_owned()));
        },
        None => {
            proof {
                assert(t.take(3) =~= t.subrange(0, 3));
            }
        },
    }

    // git checkout -b <branch> / git checkout <branch>
    match strip_prefix_str(trimmed, "git checkout ") {
        Some(raw) => {
            proof {
                assert(t.take(13) =~= t.subrange(0, 13));
                assert(raw@ == t.skip(13));
            }
            let rest = trim(raw);
            match strip_prefix_str(rest, "-b ") {
                Some(branch) => {
                    proof {
                        assert(rest@.take(3) =~= rest@.subrange(0, 3));
                        assert(branch@ == rest@.skip(3));
                    }
                    let b = trim(branch);
                    return Some(FocusEntry::Branch(b.to_owned()));
                },
                None => {
                    proof {
                        assert(rest@.take(3) =~= rest@.subrange(0, 3));
                    }
                },
            }
            match first_token(rest) {
                Some(tok) => {
                    return Some(FocusEntry::Branch(tok.to_owned()));
                },
                None => {
                    return None;
                },
            }
        },
        None => {
            proof {
                assert(t.take(13) =~= t.subrange(0, 13));
            }
        },
    }

    // git switch <branch>
    match strip_prefix_str(trimmed, "git switch ") {
        Some(raw) => {
            proof {
                assert(t.take(11) =~= t.subrange(0, 11));
                assert(raw@ == t.skip(11));
            }
            let rest = trim(raw);
            match strip_prefix_str(rest, "-c ") {
                Some(branch) => {
                    proof {
                        assert(rest@.take(3) =~= rest@.subrange(0, 3));
                        assert(branch@ == rest@.skip(3));
                    }
                    let b = trim(branch);
                    return Some(FocusEntry::Branch(b.to_owned()));
                },
                None => {
                    proof {
                        assert(rest@.take(3) =~= rest@.subrange(0, 3));
                    }
                },
            }
            match first_token(rest) {
                Some(tok) => {
                    return Some(FocusEntry::Branch(tok.to_owned()));
                },
                None => {
                    return None;
                },
            }
        },
        None => {
            proof {
                assert(t.take(11) =~= t.subrange(0, 11));
            }
        },
    }

    // git commit
    if starts_with_str(trimmed, "git commit") {
        proof {
            assert(t.take(10) =~= t.subrange(0, 10));
        }
        return Some(FocusEntry::Commit(String::from_str("pending")));
    }
    proof {
        assert(t.take(10) =~= t.subrange(0, 10));
    }
    None
}

/// The four entry kinds, for selecting the most recent entry of each.
pub ghost enum FocusKind {
    File,
    Directory,
    Branch,
    Commit,
}

/// Whether `e` is of kind `k`.
pub open spec fn has_kind(e: FocusEntry, k: FocusKind) -> bool {
    match k {
        FocusKind::File => e is File,
        FocusKind::Directory => e is Directory,
        FocusKind::Branch => e is Branch,
        FocusKind::Commit => e is Commit,
    }
}

/// Index of the first entry of kind `k` in `s`, if any.
pub open spec fn first_of_kind(s: Seq<FocusEntry>, k: FocusKind) -> Option<int>
    decreases s.len(),
{
    if s.len() == 0 {
        None
    } else if has_kind(s[0], k) {
        Some(0int)
    } else {
        match first_of_kind(s.skip(1), k) {
            Some(i) => Some(i + 1),
            None => None,
        }
    }
}

/// `first_of_kind` finds the lowest index of its kind, and `None` only
/// when there is none.
pub proof fn lemma_first_of_kind(s: Seq<FocusEntry>, k: FocusKind)
    ensures
        match first_of_kind(s, k) {
            Some(i) => 0 <= i < s.len() && has_kind(s[i], k) && forall|q: int|
                0 <= q < i ==> !has_kind(s[q], k),
            None => forall|q: int| 0 <= q < s.len() ==> !has_kind(s[q], k),
        },
    decreases s.len(),
{
    if s.len() > 0 && !has_kind(s[0], k) {
        lemma_first_of_kind(s.skip(1), k);
        match first_of_kind(s, k) {
            Some(i) => {
                assert(s[i] == s.skip(1)[i - 1]);
                assert forall|q: int| 0 <= q < i implies !has_kind(s[q], k) by {
                    if q > 0 {
                        assert(s[q] == s.skip(1)[q - 1]);
                    }
                }
            },
            None => {
                assert forall|q: int| 0 <= q < s.len() implies !has_kind(s[q], k) by {
                    if q > 0 {
                        assert(s[q] == s.skip(1)[q - 1]);
                    }
                }
            },
        }
    }
}

/// If `i` holds an entry of kind `k` and nothing before it does, then
/// `i` is the index `first_of_kind` names.
proof fn lemma_first_of_kind_is(s: Seq<FocusEntry>, k: FocusKind, i: int)
    requires
        0 <= i < s.len(),
        has_kind(s[i], k),
        forall|q: int| 0 <= q < i ==> !has_kind(s[q], k),
    ensures
        first_of_kind(s, k) == Some(i),
{
    lemma_first_of_kind(s, k);
    match first_of_kind(s, k) {
        Some(j) => {
            if j < i {
                assert(!has_kind(s[j], k));
            }
            if j > i {
                assert(!has_kind(s[i], k));
            }
        },
        None => {
            assert(!has_kind(s[i], k));
        },
    }
}

/// Maintains focus history with a navigable pointer and follow mode.
///
/// Entries are ordered newest-first (index 0 is the most recent).  The
/// pointer never runs past the history; while follow mode is on it
/// rests on the newest entry.
pub struct FocusState {
    entries: Vec<FocusEntry>,
    pointer: usize,
    follow_mode: bool,
}

impl FocusState {
    /// The history, newest first.
    pub closed spec fn entry_seq(&self) -> Seq<FocusEntry> {
        self.entries@
    }

    /// Current pointer position into the history.
    pub closed spec fn spec_pointer(&self) -> usize {
        self.pointer
    }

    /// Whether the pointer auto-advances to the newest entry.
    pub closed spec fn spec_follow(&self) -> bool {
        self.follow_mode
    }

    /// The pointer stays within the history, and rests on the newest
    /// entry while follow mode is on.
    pub closed spec fn wf(&self) -> bool {
        &&& self.pointer <= self.entries@.len()
        &&& (self.follow_mode ==> self.pointer == 0)
    }

    /// An empty history with follow mode on.
    pub fn new() -> (r: Self)
        ensures
            r.wf(),
            r.entry_seq() == Seq::<FocusEntry>::empty(),
            r.spec_pointer() == 0,
            r.spec_follow(),
    {
        let r = FocusState { entries: Vec::new(), pointer: 0, follow_mode: true };
        proof {
            assert(r.entry_seq() =~= Seq::<FocusEntry>::empty());
        }
        r
    }

    /// Prepend an entry (newest at index 0).  In follow mode the pointer
    /// stays on the newest entry; otherwise it moves along with the
    /// entry it was on.
    pub fn append(&mut self, entry: FocusEntry)
        requires
            old(self).wf(),
        ensures
            final(self).wf(),
            final(self).entry_seq() == old(self).entry_seq().insert(0, entry),
            old(self).spec_follow() ==> final(self).spec_pointer() == old(self).spec_pointer(),
            !old(self).spec_follow() ==> final(self).spec_pointer() == old(self).spec_pointer()
                + 1,
            final(self).spec_follow() == old(self).spec_follow(),
    {
        self.entries.insert(0, entry);
        if !self.follow_mode {
            // Keep the pointer on the same entry it was on before.
            let n = self.entries.len();
            proof {
                assert(self.pointer < n);
            }
            self.pointer = self.pointer + 1;
        }
    }

    /// Move the pointer toward newer entries (lower index); any manual
    /// movement turns follow mode off.
    pub fn move_up(&mut self)
        requires
            old(self).wf(),
        ensures
            final(self).wf(),
            final(self).entry_seq() == old(self).entry_seq(),
            old(self).spec_pointer() > 0 ==> final(self).spec_pointer() == old(self).spec_pointer() - 1 && !final(self).spec_follow(),
            old(self).spec_pointer() == 0 ==> final(self).spec_pointer() == 0 && final(self).spec_follow() == old(self).spec_follow(),
    {
        if self.pointer > 0 {
            self.pointer = self.pointer - 1;
            self.follow_mode = false;
        }
    }

    /// Move the pointer toward older entries (higher index); any manual
    /// movement turns follow mode off.
    pub fn move_down(&mut self)
        requires
            old(self).wf(),
        ensures
            final(self).wf(),
            final(self).entry_seq() == old(self).entry_seq(),
            old(self).entry_seq().len() > 0 && old(self).spec_pointer() < old(self).entry_seq().len() - 1 ==> final(self).spec_pointer() == old(self).spec_pointer() + 1
                && !final(self).spec_follow(),
            !(old(self).entry_seq().len() > 0 && old(self).spec_pointer() < old(self).entry_seq().len() - 1) ==> final(self).spec_pointer() == old(self).spec_pointer()
                && final(self).spec_follow() == old(self).spec_follow(),
    {
        if self.entries.len() > 0 && self.pointer < self.entries.len() - 1 {
            self.pointer = self.pointer + 1;
            self.follow_mode = false;
        }
    }

    /// Flip follow mode; turning it on snaps the pointer to the newest
    /// entry.
    pub fn toggle_follow_mode(&mut self)
        requires
            old(self).wf(),
        ensures
            final(self).wf(),
            final(self).entry_seq() == old(self).entry_seq(),
            final(self).spec_follow() == !old(self).spec_follow(),
            final(self).spec_follow() ==> final(self).spec_pointer() == 0,
            !final(self).spec_follow() ==> final(self).spec_pointer() == old(self).spec_pointer(),
    {
        self.follow_mode = !self.follow_mode;
        if self.follow_mode {
            self.pointer = 0;
        }
    }

    /// The entry under the pointer, if the pointer is on one.
    pub fn current_entry(&self) -> (r: Option<&FocusEntry>)
        ensures
            r is Some <==> self.spec_pointer() < self.entry_seq().len(),
            r is Some ==> *r->0 == self.entry_seq()[self.spec_pointer() as int],
    {
        if self.pointer < self.entries.len() {
            Some(&self.entries[self.pointer])
        } else {
            None
        }
    }

    /// The history, newest first.
    pub fn entries(&self) -> (r: &[FocusEntry])
        ensures
            r@ == self.entry_seq(),
    {
        self.entries.as_slice()
    }

    /// Current pointer position.
    pub fn pointer(&self) -> (r: usize)
        ensures
            r == self.spec_pointer(),
    {
        self.pointer
    }

    /// Whether follow mode is on.
    pub fn follow_mode(&self) -> (r: bool)
        ensures
            r == self.spec_follow(),
    {
        self.follow_mode
    }

    /// Number of entries in the history.
    pub fn len(&self) -> (r: usize)
        ensures
            r == self.entry_seq().len(),
    {
        self.entries.len()
    }

    /// Find the most recent entry of each kind.
    /// Returns (File, Directory, Branch, Commit) — each optional.
    pub fn recent_by_type(&self) -> (r: (
        Option<&FocusEntry>,
        Option<&FocusEntry>,
        Option<&FocusEntry>,
        Option<&FocusEntry>,
    ))
        ensures
            r.0 is Some <==> first_of_kind(self.entry_seq(), FocusKind::File) is Some,
            r.0 is Some ==> *r.0->0 == self.entry_seq()[first_of_kind(
                self.entry_seq(),
                FocusKind::File,
            )->0],
            r.1 is Some <==> first_of_kind(self.entry_seq(), FocusKind::Directory) is Some,
            r.1 is Some ==> *r.1->0 == self.entry_seq()[first_of_kind(
                self.entry_seq(),
                FocusKind::Directory,
            )->0],
            r.2 is Some <==> first_of_kind(self.entry_seq(), FocusKind::Branch) is Some,
            r.2 is Some ==> *r.2->0 == self.entry_seq()[first_of_kind(
                self.entry_seq(),
                FocusKind::Branch,
            )->0],
            r.3 is Some <==> first_of_kind(self.entry_seq(), FocusKind::Commit) is Some,
            r.3 is Some ==> *r.3->0 == self.entry_seq()[first_of_kind(
                self.entry_seq(),
                FocusKind::Commit,
            )->0],
    {
        let ghost s = self.entries@;
        let mut file: Option<&FocusEntry> = None;
        let mut dir: Option<&FocusEntry> = None;
        let mut branch: Option<&FocusEntry> = None;
        let mut commit: Option<&FocusEntry> = None;
        let ghost mut jf: int = 0;
        let ghost mut jd: int = 0;
        let ghost mut jb: int = 0;
        let ghost mut jc: int = 0;
        let mut i: usize = 0;
        while i < self.entries.len()
            invariant
                s == self.entries@,
                i <= s.len(),
                file is None ==> forall|q: int| 0 <= q < i ==> !has_kind(s[q], FocusKind::File),
                file is Some ==> 0 <= jf < i && has_kind(s[jf], FocusKind::File) && (forall|q: int|
                    0 <= q < jf ==> !has_kind(s[q], FocusKind::File)) && *file->0 == s[jf],
                dir is None ==> forall|q: int|
                    0 <= q < i ==> !has_kind(s[q], FocusKind::Directory),
                dir is Some ==> 0 <= jd < i && has_kind(s[jd], FocusKind::Directory) && (forall|
                    q: int,
                |
                    0 <= q < jd ==> !has_kind(s[q], FocusKind::Directory)) && *dir->0 == s[jd],
                branch is None ==> forall|q: int|
                    0 <= q < i ==> !has_kind(s[q], FocusKind::Branch),
                branch is Some ==> 0 <= jb < i && has_kind(s[jb], FocusKind::Branch) && (forall|
                    q: int,
                |
                    0 <= q < jb ==> !has_kind(s[q], FocusKind::Branch)) && *branch->0 == s[jb],
                commit is None ==> forall|q: int|
                    0 <= q < i ==> !has_kind(s[q], FocusKind::Commit),
                commit is Some ==> 0 <= jc < i && has_kind(s[jc], FocusKind::Commit) && (forall|
                    q: int,
                |
                    0 <= q < jc ==> !has_kind(s[q], FocusKind::Commit)) && *commit->0 == s[jc],
            decreases s.len() - i,
        {
            let e = &self.entries[i];
            match e {
                FocusEntry::File(_) => {
                    if file.is_none() {
                        file = Some(e);
                        proof {
                            jf = i as int;
                        }
                    }
                },
                FocusEntry::Directory(_) => {
                    if dir.is_none() {
                        dir = Some(e);
                        proof {
                            jd = i as int;
                        }
                    }
                },
                FocusEntry::Branch(_) => {
                    if branch.is_none() {
                        branch = Some(e);
                        proof {
                            jb = i as int;
                        }
                    }
                },
                FocusEntry::Commit(_) => {
                    if commit.is_none() {
                        commit = Some(e);
                        proof {
                            jc = i as int;
                        }
                    }
                },
            }
            i = i + 1;
        }
        proof {
            if file is Some {
                lemma_first_of_kind_is(s, FocusKind::File, jf);
            } else {
                lemma_first_of_kind(s, FocusKind::File);
            }
            if dir is Some {
                lemma_first_of_kind_is(s, FocusKind::Directory, jd);
            } else {
                lemma_first_of_kind(s, FocusKind::Directory);
            }
            if branch is Some {
                lemma_first_of_kind_is(s, FocusKind::Branch, jb);
            } else {
                lemma_first_of_kind(s, FocusKind::Branch);
            }
            if commit is Some {
                lemma_first_of_kind_is(s, FocusKind::Commit, jc);
            } else {
                lemma_first_of_kind(s, FocusKind::Commit);
            }
        }
        (file, dir, branch, commit)
    }
}

/// The focus entry a tool event maps to, if any: only completed events
/// count; file tools focus their file, `bash` commands are parsed, the
/// listing tool focuses its directory, and everything else is ignored.
pub open spec fn map_tool_event_spec(e: ToolEventView) -> Option<FocusEntryView> {
    if e.state != "completed"@ {
        None
    } else if e.tool == "read"@ || e.tool == "write"@ || e.tool == "edit"@ {
        match e.file_path {
            Some(p) => Some(FocusEntryView::File(p)),
            None => None,
        }
    } else if e.tool == "bash"@ {
        match e.command {
            Some(c) => bash_focus_spec(c),
            None => None,
        }
    } else if e.tool == "list"@ {
        match e.path {
            Some(p) => Some(FocusEntryView::Directory(p)),
            None => None,
        }
    } else {
        None
    }
}

/// Map a tool event to a focus entry.  Only `completed` events map;
/// irrelevant tools and events missing their field map to nothing.
pub fn map_tool_event(event: &ToolEvent) -> (r: Option<FocusEntry>)
    ensures
        r is Some <==> map_tool_event_spec(event@) is Some,
        r is Some ==> r->0@ == map_tool_event_spec(event@)->0,
{
    if !str_eq(event.state.as_str(), "completed") {
        return None;
    }
    let is_file_tool = str_eq(event.tool.as_str(), "read") || str_eq(event.tool.as_str(), "write")
        || str_eq(event.tool.as_str(), "edit");
    if is_file_tool {
        // All file tools carry the path under one field name.
        return match &event.input.file_path {
            Some(p) => Some(FocusEntry::File(p.clone())),
            None => None,
        };
    }
    if str_eq(event.tool.as_str(), "bash") {
        return match &event.input.command {
            Some(c) => parse_bash_command(c.as_str()),
            None => None,
        };
    }
    if str_eq(event.tool.as_str(), "list") {
        return match &event.input.path {
            Some(p) => Some(FocusEntry::Directory(p.clone())),
            None => None,
        };
    }
    None
}

/// The history that replaying `evs` builds: each mapped event is
/// prepended, so the last event's entry sits at index 0.
pub open spec fn rebuild_entries_spec(evs: Seq<ToolEvent>) -> Seq<FocusEntryView>
    decreases evs.len(),
{
    if evs.len() == 0 {
        Seq::empty()
    } else {
        match map_tool_event_spec(evs.last()@) {
            Some(e) => seq![e] + rebuild_entries_spec(evs.drop_last()),
            None => rebuild_entries_spec(evs.drop_last()),
        }
    }
}

impl FocusState {
    /// Rebuild focus history from a sequence of tool events in
    /// chronological order; follow mode stays on, so the pointer ends on
    /// the newest entry.
    pub fn rebuild_from_events(events: &[ToolEvent]) -> (r: FocusState)
        ensures
            r.wf(),
            r.spec_pointer() == 0,
            r.spec_follow(),
            r.entry_seq().len() == rebuild_entries_spec(events@).len(),
            forall|k: int|
                0 <= k < r.entry_seq().len() ==> (#[trigger] r.entry_seq()[k])@
                    == rebuild_entries_spec(events@)[k],
    {
        let mut state = FocusState::new();
        let mut i: usize = 0;
        proof {
            assert(events@.take(0) =~= Seq::<ToolEvent>::empty());
        }
        while i < events.len()
            invariant
                i <= events@.len(),
                state.wf(),
                state.spec_pointer() == 0,
                state.spec_follow(),
                state.entry_seq().len() == rebuild_entries_spec(events@.take(i as int)).len(),
                forall|k: int|
                    0 <= k < state.entry_seq().len() ==> (#[trigger] state.entry_seq()[k])@
                        == rebuild_entries_spec(events@.take(i as int))[k],
            decreases events@.len() - i,
        {
            let ghost prefix = events@.take(i as int);
            let ghost prefix2 = events@.take(i as int + 1);
            proof {
                assert(prefix2.drop_last() =~= prefix);
                assert(prefix2.last() == events@[i as int]);
            }
            match map_tool_event(&events[i]) {
                Some(entry) => {
                    state.append(entry);
                },
                None => {},
            }
            i = i + 1;
        }
        proof {
            assert(events@.take(events@.len() as int) =~= events@);
        }
        state
    }

    /// Generate a human-readable context string for prompt prepending:
    /// the current focus, then the most recent directory, file and
    /// branch, each mentioned once.
    pub fn to_context_string(&self) -> (r: Option<String>)
        ensures
            r is Some <==> context_parts(self.entry_seq(), self.spec_pointer() as int).len() > 0,
            r is Some ==> r->0@ == context_string_spec(
                self.entry_seq(),
                self.spec_pointer() as int,
            )->0,
    {
        let ghost s = self.entry_seq();
        let ghost ptr = self.spec_pointer() as int;
        let (file, dir, branch, _commit) = self.recent_by_type();
        let mut parts: Vec<String> = Vec::new();
        let ghost mut pv: Seq<Seq<char>> = Seq::empty();

        match self.current_entry() {
            Some(entry) => {
                let mut part = String::from_str("Currently focused on ");
                part.append(entry.kind_name());
                part.append(" ");
                part.append(entry.value_str().as_str());
                proof {
                    pv = pv.push(
                        "Currently focused on "@ + kind_name_spec(s[ptr]@) + " "@ + value_spec(
                            s[ptr]@,
                        ),
                    );
                }
                parts.push(part);
            },
            None => {},
        }
        proof {
            assert(pv.len() == parts@.len());
            assert(forall|k: int| 0 <= k < pv.len() ==> pv[k] == #[trigger] parts@[k]@);
            assert(pv =~= part_stage1(s, ptr));
        }

        match dir {
            Some(d) => {
                let dv = d.value_str();
                let ghost dsv = value_spec(s[first_of_kind(s, FocusKind::Directory)->0]@);
                // Only add if not already part of the current focus text.
                if !any_contains_str(&parts, dv.as_str()) {
                    proof {
                        assert(!any_contains(pv, dsv)) by {
                            if any_contains(pv, dsv) {
                                let w = choose|w: int|
                                    0 <= w < pv.len() && #[trigger] contains_seq(pv[w], dsv);
                                assert(contains_seq(parts@[w]@, dsv));
                            }
                        }
                    }
                    let mut part = String::from_str("in directory ");
                    part.append(dv.as_str());
                    proof {
                        pv = pv.push("in directory "@ + dsv);
                    }
                    parts.push(part);
                } else {
                    proof {
                        assert(any_contains(pv, dsv)) by {
                            let w = choose|w: int|
                                0 <= w < parts@.len() && #[trigger] contains_seq(parts@[w]@, dsv);
                            assert(contains_seq(pv[w], dsv));
                        }
                    }
                }
            },
            None => {},
        }
        proof {
            assert(pv.len() == parts@.len());
            assert(forall|k: int| 0 <= k < pv.len() ==> pv[k] == #[trigger] parts@[k]@);
            assert(pv =~= part_stage2(s, ptr));
        }

        match file {
            Some(f) => {
                let fv = f.value_str();
                let ghost fsv = value_spec(s[first_of_kind(s, FocusKind::File)->0]@);
                if !any_contains_str(&parts, fv.as_str()) {
                    proof {
                        assert(!any_contains(pv, fsv)) by {
                            if any_contains(pv, fsv) {
                                let w = choose|w: int|
                                    0 <= w < pv.len() && #[trigger] contains_seq(pv[w], fsv);
                                assert(contains_seq(parts@[w]@, fsv));
                            }
                        }
                    }
                    let mut part = String::from_str("recent file ");
                    part.append(fv.as_str());
                    proof {
                        pv = pv.push("recent file "@ + fsv);
                    }
                    parts.push(part);
                } else {
                    proof {
                        assert(any_contains(pv, fsv)) by {
                            let w = choose|w: int|
                                0 <= w < parts@.len() && #[trigger] contains_seq(parts@[w]@, fsv);
                            assert(contains_seq(pv[w], fsv));
                        }
                    }
                }
            },
            None => {},
        }
        proof {
            assert(pv.len() == parts@.len());
            assert(forall|k: int| 0 <= k < pv.len() ==> pv[k] == #[trigger] parts@[k]@);
            assert(pv =~= part_stage3(s, ptr));
        }

        match branch {
            Some(b) => {
                let mut part = String::from_str("on branch ");
                part.append(b.value_str().as_str());
                proof {
                    pv = pv.push("on branch "@ + value_spec(s[first_of_kind(s, FocusKind::Branch)->0]@));
                }
                parts.push(part);
            },
            None => {},
        }
        proof {
            assert(pv.len() == parts@.len());
            assert(forall|k: int| 0 <= k < pv.len() ==> pv[k] == #[trigger] parts@[k]@);
            assert(pv =~= context_parts(s, ptr));
        }

        if parts.len() == 0 {
            return None;
        }
        let joined = join_strings(&parts, ", ");
        proof {
            assert(parts@.map_values(|x: String| x@) =~= pv) by {
                assert forall|k: int| 0 <= k < pv.len() implies parts@.map_values(|x: String| x@)[k]
                    == pv[k] by {
                    assert(parts@.map_values(|x: String| x@)[k] == parts@[k]@);
                }
            }
        }
        let mut out = String::from_str("[Context: ");
        out.append(joined.as_str());
        out.append("]");
        proof {
            assert(out@ =~= "[Context: "@ + join_spec(pv, ", "@) + "]"@);
        }
        Some(out)
    }
}

/// The context parts after considering the current focus alone.
pub open spec fn part_stage1(s: Seq<FocusEntry>, pointer: int) -> Seq<Seq<char>> {
    if 0 <= pointer < s.len() {
        seq!["Currently focused on "@ + kind_name_spec(s[pointer]@) + " "@ + value_spec(s[pointer]@)]
    } else {
        Seq::empty()
    }
}

/// The context parts after also considering the most recent directory.
pub open spec fn part_stage2(s: Seq<FocusEntry>, pointer: int) -> Seq<Seq<char>> {
    let p1 = part_stage1(s, pointer);
    match first_of_kind(s, FocusKind::Directory) {
        Some(j) => if !any_contains(p1, value_spec(s[j]@)) {
            p1.push("in directory "@ + value_spec(s[j]@))
        } else {
            p1
        },
        None => p1,
    }
}

/// The context parts after also considering the most recent file.
pub open spec fn part_stage3(s: Seq<FocusEntry>, pointer: int) -> Seq<Seq<char>> {
    let p2 = part_stage2(s, pointer);
    match first_of_kind(s, FocusKind::File) {
        Some(j) => if !any_contains(p2, value_spec(s[j]@)) {
            p2.push("recent file "@ + value_spec(s[j]@))
        } else {
            p2
        },
        None => p2,
    }
}

/// All context parts: current focus, recent directory and file (each
/// mentioned once), and the most recent branch.
pub open spec fn context_parts(s: Seq<FocusEntry>, pointer: int) -> Seq<Seq<char>> {
    let p3 = part_stage3(s, pointer);
    match first_of_kind(s, FocusKind::Branch) {
        Some(j) => p3.push("on branch "@ + value_spec(s[j]@)),
        None => p3,
    }
}

/// The full context line, when there is anything to say.
pub open spec fn context_string_spec(s: Seq<FocusEntry>, pointer: int) -> Option<Seq<char>> {
    let ps = context_parts(s, pointer);
    if ps.len() == 0 {
        None
    } else {
        Some("[Context: "@ + join_spec(ps, ", "@) + "]"@)
    }
}

} // verus!
