//! Plain-value transport types and the pure parts of the event-stream
//! handling: SSE data-line extraction and prompt/context formatting.
//! The HTTP client itself lives with the surrounding application.

use vstd::prelude::*;
use vstd::string::StrSliceExecFns;
use vstd::string::StringExecFns;
use crate::text::join_spec;
use crate::text::join_strings;
use crate::text::strip_prefix_str;

verus! {

/// Connection status for the assistant server.
#[derive(Debug, Clone, Copy, PartialEq, Eq, Structural)]
pub enum ConnectionStatus {
    Disconnected,
    Connected,
    Reconnecting,
}

/// Session info from the assistant server.
#[derive(Debug, Clone)]
pub struct SessionInfo {
    pub id: String,
    pub slug: Option<String>,
    pub directory: Option<String>,
    pub title: Option<String>,
}

/// The arguments of a tool-execution event, reduced to the fields the
/// focus mapping reads.  The wire format carries arbitrary JSON; the
/// application extracts these at the edge and leaves the rest behind.
#[derive(Debug, Clone)]
pub struct ToolInput {
    pub file_path: Option<String>,
    pub command: Option<String>,
    pub path: Option<String>,
}

impl ToolInput {
    /// An input with none of the recognized fields.
    pub fn none() -> (r: ToolInput)
        ensures
            r.file_path is None,
            r.command is None,
            r.path is None,
    {
        ToolInput { file_path: None, command: None, path: None }
    }
}

/// A tool execution event from the server's event stream.
#[derive(Debug, Clone)]
pub struct ToolEvent {
    pub tool: String,
    pub input: ToolInput,
    pub state: String,
}

/// The view of an optional string.
pub open spec fn opt_seq(o: Option<String>) -> Option<Seq<char>> {
    match o {
        Some(s) => Some(s@),
        None => None,
    }
}

/// Ghost shape of a tool event: every field as a character sequence.
pub ghost struct ToolEventView {
    pub tool: Seq<char>,
    pub file_path: Option<Seq<char>>,
    pub command: Option<Seq<char>>,
    pub path: Option<Seq<char>>,
    pub state: Seq<char>,
}

impl View for ToolEvent {
    type V = ToolEventView;

    open spec fn view(&self) -> ToolEventView {
        ToolEventView {
            tool: self.tool@,
            file_path: opt_seq(self.input.file_path),
            command: opt_seq(self.input.command),
            path: opt_seq(self.input.path),
            state: self.state@,
        }
    }
}

/// Index of the first occurrence of `c` in `s`, or the length of `s`.
pub open spec fn find_char(s: Seq<char>, c: char) -> nat
    decreases s.len(),
{
    if s.len() == 0 {
        0
    } else if s[0] == c {
        0
    } else {
        1 + find_char(s.skip(1), c)
    }
}

proof fn lemma_find_char(s: Seq<char>, c: char)
    ensures
        find_char(s, c) <= s.len(),
        find_char(s, c) < s.len() ==> s[find_char(s, c) as int] == c,
        forall|k: int| 0 <= k < find_char(s, c) ==> s[k] != c,
    decreases s.len(),
{
    if s.len() > 0 && s[0] != c {
        lemma_find_char(s.skip(1), c);
        let f = find_char(s, c);
        assert(f == 1 + find_char(s.skip(1), c));
        if f < s.len() {
            assert(s[f as int] == s.skip(1)[f - 1]);
        }
        assert forall|k: int| 0 <= k < f implies s[k] != c by {
            if k > 0 {
                assert(s[k] == s.skip(1)[k - 1]);
            }
        }
    }
}

/// A line with one trailing carriage return removed, as the line
/// splitting does for CRLF endings.
pub open spec fn strip_cr(l: Seq<char>) -> Seq<char> {
    if l.len() > 0 && l.last() == '\r' {
        l.drop_last()
    } else {
        l
    }
}

/// The lines of `s`: split at newlines, CRLF endings folded, a final
/// line ending optional.
pub open spec fn lines_spec(s: Seq<char>) -> Seq<Seq<char>>
    decreases s.len(),
{
    if s.len() == 0 {
        Seq::empty()
    } else {
        let f = find_char(s, '\n');
        if f < s.len() {
            seq![strip_cr(s.take(f as int))] + lines_spec(s.skip(f as int + 1))
        } else {
            seq![s]
        }
    }
}

/// The payload of one SSE line: what follows a `data: ` or `data:`
/// prefix, if the line carries one.
pub open spec fn sse_data_of(l: Seq<char>) -> Option<Seq<char>> {
    if l.len() >= "data: "@.len() && l.take("data: "@.len() as int) == "data: "@ {
        Some(l.skip("data: "@.len() as int))
    } else if l.len() >= "data:"@.len() && l.take("data:"@.len() as int) == "data:"@ {
        Some(l.skip("data:"@.len() as int))
    } else {
        None
    }
}

/// The payloads of the data lines among `ls`, in order.
pub open spec fn data_lines_spec(ls: Seq<Seq<char>>) -> Seq<Seq<char>>
    decreases ls.len(),
{
    if ls.len() == 0 {
        Seq::empty()
    } else {
        match sse_data_of(ls[0]) {
            Some(d) => seq![d] + data_lines_spec(ls.skip(1)),
            None => data_lines_spec(ls.skip(1)),
        }
    }
}

/// Extract the payloads of SSE `data:` lines from a chunk of stream
/// text: lines are split at newlines, and each line starting with
/// `data: ` (or the space-less `data:`) contributes what follows the
/// prefix, in order.
pub fn extract_sse_data_lines<'a>(text: &'a str) -> (r: Vec<&'a str>)
    ensures
        r@.map_values(|t: &str| t@) == data_lines_spec(lines_spec(text@)),
{
    proof {
        reveal_strlit("data: ");
        reveal_strlit("data:");
    }
    let n = text.unicode_len();
    let mut r: Vec<&'a str> = Vec::new();
    let mut start: usize = 0;
    proof {
        assert(text@.skip(0) =~= text@);
    }
    while start < n
        invariant
            n == text@.len(),
            start <= n,
            "data: "@.len() == 6,
            "data:"@.len() == 5,
            r@.map_values(|t: &str| t@) + data_lines_spec(lines_spec(text@.skip(start as int)))
                =~= data_lines_spec(lines_spec(text@)),
        decreases n - start,
    {
        let ghost rest = text@.skip(start as int);
        let mut j: usize = start;
        while j < n && text.get_char(j) != '\n'
            invariant
                n == text@.len(),
                start <= j <= n,
                forall|k: int| start <= k < j ==> text@[k] != '\n',
            decreases n - j,
        {
            j = j + 1;
        }
        proof {
            lemma_find_char(rest, '\n');
            let f = find_char(rest, '\n');
            assert forall|k: int| 0 <= k < j - start implies rest[k] != '\n' by {
                assert(rest[k] == text@[start + k]);
            }
            if j < n {
                assert(rest[j - start] == text@[j as int]);
                assert(rest[j - start] == '\n');
                assert(f == j - start) by {
                    if f < j - start {
                        assert(rest[f as int] != '\n');
                    }
                }
            } else {
                assert(f == j - start) by {
                    if f < rest.len() {
                        assert(rest[f as int] == '\n');
                    }
                }
            }
        }
        let line: &str = if j < n && j > start && text.get_char(j - 1) == '\r' {
            text.substring_char(start, j - 1)
        } else {
            text.substring_char(start, j)
        };
        proof {
            assert(rest.take(j - start) =~= text@.subrange(start as int, j as int));
            if j < n {
                assert(line@ =~= strip_cr(rest.take(j - start))) by {
                    if j > start && text@[j - 1] == '\r' {
                        assert(rest.take(j - start).last() == text@[j - 1]);
                        assert(line@ =~= rest.take(j - start).drop_last());
                    } else {
                        if rest.take(j - start).len() > 0 {
                            assert(rest.take(j - start).last() == text@[j - 1]);
                        }
                    }
                }
            } else {
                assert(line@ =~= rest);
            }
        }
        let piece = strip_prefix_str(line, "data: ");
        let mut pushed: bool = false;
        let ghost r_before = r@;
        match piece {
            Some(p) => {
                r.push(p);
                pushed = true;
                proof {
                    assert(p@ =~= line@.skip(6));
                    assert(line@.take(6) =~= line@.subrange(0, 6));
                    assert(sse_data_of(line@) == Some(line@.skip(6)));
                }
            },
            None => {
                match strip_prefix_str(line, "data:") {
                    Some(p) => {
                        r.push(p);
                        pushed = true;
                        proof {
                            assert(p@ =~= line@.skip(5));
                            assert(line@.take(5) =~= line@.subrange(0, 5));
                            assert(line@.take(6) =~= line@.subrange(0, 6));
                            assert(sse_data_of(line@) == Some(line@.skip(5)));
                        }
                    },
                    None => {
                        proof {
                            assert(line@.take(6) =~= line@.subrange(0, 6));
                            assert(line@.take(5) =~= line@.subrange(0, 5));
                            assert(sse_data_of(line@) is None);
                        }
                    },
                }
            },
        }
        let next = if j < n {
            j + 1
        } else {
            n
        };
        proof {
            let f = find_char(rest, '\n');
            if j < n {
                assert(lines_spec(rest) =~= seq![strip_cr(rest.take(f as int))] + lines_spec(
                    rest.skip(f as int + 1),
                ));
                assert(rest.skip(f as int + 1) =~= text@.skip(next as int));
                assert(lines_spec(rest)[0] == line@);
                assert(lines_spec(rest).skip(1) =~= lines_spec(text@.skip(next as int)));
            } else {
                assert(rest.len() > 0);
                assert(lines_spec(rest) =~= seq![rest]);
                assert(lines_spec(rest)[0] == line@);
                assert(text@.skip(next as int).len() == 0);
                assert(lines_spec(rest).skip(1) =~= lines_spec(text@.skip(next as int)));
            }
            let ls = lines_spec(rest);
            assert(data_lines_spec(ls) == match sse_data_of(line@) {
                Some(d) => seq![d] + data_lines_spec(ls.skip(1)),
                None => data_lines_spec(ls.skip(1)),
            });
            if pushed {
                assert(r@ =~= r_before.push(r@.last()));
                assert(r@.map_values(|t: &str| t@) =~= r_before.map_values(|t: &str| t@).push(
                    r@.last()@,
                ));
            }
            assert(r@.map_values(|t: &str| t@) + data_lines_spec(
                lines_spec(text@.skip(next as int)),
            ) =~= data_lines_spec(lines_spec(text@)));
        }
        start = next;
    }
    proof {
        assert(text@.skip(n as int).len() == 0);
        assert(data_lines_spec(lines_spec(text@.skip(n as int))) =~= Seq::<Seq<char>>::empty());
        assert(r@.map_values(|t: &str| t@) =~= data_lines_spec(lines_spec(text@)));
    }
    r
}

/// What the prompt builder produces: the transcript alone when there is
/// no context, otherwise a bracketed context header naming the current
/// focus and the recent files, then the transcript on its own line.
pub open spec fn format_prompt_spec(
    transcript: Seq<char>,
    current_focus: Option<Seq<char>>,
    recent_files: Seq<Seq<char>>,
) -> Seq<char> {
    if current_focus is None && recent_files.len() == 0 {
        transcript
    } else {
        let focus_parts: Seq<Seq<char>> = if current_focus is Some {
            seq!["Currently focused on: "@ + current_focus->0]
        } else {
            Seq::empty()
        };
        let file_parts: Seq<Seq<char>> = if recent_files.len() > 0 {
            seq!["Recent files: "@ + join_spec(recent_files, ", "@)]
        } else {
            Seq::empty()
        };
        "[Context: "@ + join_spec(focus_parts + file_parts, ". "@) + "]\n"@ + transcript
    }
}

/// Build a prompt string that prepends focus context as natural
/// language.
pub fn format_prompt_with_context(
    transcript: &str,
    current_focus: Option<&str>,
    recent_files: &[&str],
) -> (r: String)
    ensures
        current_focus is Some ==> r@ == format_prompt_spec(
            transcript@,
            Some(current_focus->0@),
            recent_files@.map_values(|t: &str| t@),
        ),
        current_focus is None ==> r@ == format_prompt_spec(
            transcript@,
            None,
            recent_files@.map_values(|t: &str| t@),
        ),
{
    let ghost files = recent_files@.map_values(|t: &str| t@);
    if current_focus.is_none() && recent_files.len() == 0 {
        let r = transcript.to_owned();
        return r;
    }
    let mut parts: Vec<String> = Vec::new();
    match current_focus {
        Some(focus) => {
            let mut part = String::from_str("Currently focused on: ");
            part.append(focus);
            parts.push(part);
        },
        None => {},
    }
    let ghost parts_after_focus = parts@.map_values(|s: String| s@);
    if recent_files.len() > 0 {
        let mut listed: Vec<String> = Vec::new();
        let mut i: usize = 0;
        while i < recent_files.len()
            invariant
                i <= recent_files@.len(),
                files == recent_files@.map_values(|t: &str| t@),
                listed@.len() == i,
                forall|k: int| 0 <= k < i ==> listed@[k]@ == files[k],
            decreases recent_files@.len() - i,
        {
            let f: &str = recent_files[i];
            let owned = f.to_owned();
            proof {
                assert(owned@ == f@);
                assert(f@ == files[i as int]);
            }
            listed.push(owned);
            i = i + 1;
        }
        proof {
            assert(listed@.map_values(|s: String| s@) =~= files) by {
                assert(listed@.map_values(|s: String| s@).len() == files.len());
                assert forall|k: int| 0 <= k < files.len() implies listed@.map_values(
                    |s: String| s@,
                )[k] == files[k] by {
                    assert(listed@.map_values(|s: String| s@)[k] == listed@[k]@);
                }
            }
        }
        let joined = join_strings(&listed, ", ");
        let mut part = String::from_str("Recent files: ");
        part.append(joined.as_str());
        parts.push(part);
    }
    let body = join_strings(&parts, ". ");
    let mut r = String::from_str("[Context: ");
    r.append(body.as_str());
    r.append("]\n");
    r.append(transcript);
    proof {
        let cf: Option<Seq<char>> = match current_focus {
            Some(f) => Some(f@),
            None => None,
        };
        let focus_parts: Seq<Seq<char>> = if cf is Some {
            seq!["Currently focused on: "@ + cf->0]
        } else {
            Seq::empty()
        };
        let file_parts: Seq<Seq<char>> = if files.len() > 0 {
            seq!["Recent files: "@ + join_spec(files, ", "@)]
        } else {
            Seq::empty()
        };
        assert(parts@.map_values(|s: String| s@) =~= focus_parts + file_parts);
        assert(r@ =~= format_prompt_spec(transcript@, cf, files));
    }
    r
}

} // verus!
