//! The build-tool runner's data model and output classification: the typed
//! messages of the structured output stream, the splitting of raw output
//! into candidate lines, the partition of parse outcomes into structured
//! messages and verbatim text, the diagnostic filter, primary-span
//! selection, and the argument and environment shapes of an invocation. The
//! spawning of the tool and the per-line structured decode stay outside the
//! library; they hand these functions plain values.

use vstd::prelude::*;

verus! {

use crate::edits::{Position, Range, find_from};
use crate::project::Project;
use crate::text::{chars_equal, chars_to_string, str_to_chars, str_views};

/// One source span of a structured compiler diagnostic; lines and columns
/// count from one.
#[derive(Clone, Debug)]
pub struct CompilerMessageSpan {
    pub column_start: usize,
    pub column_end: usize,
    pub file_name: String,
    pub line_start: usize,
    pub line_end: usize,
    pub is_primary: bool,
}

/// One structured compiler diagnostic: its rendered text, its severity
/// level, and its source spans.
#[derive(Clone, Debug)]
pub struct CompilerMessage {
    pub rendered: String,
    pub level: String,
    pub spans: Vec<CompilerMessageSpan>,
}

/// One typed message of the build tool's structured output stream.
#[derive(Clone, Debug)]
pub enum CargoMessage {
    CompilerArtifact,
    BuildScriptExecuted,
    CompilerMessage { message: CompilerMessage },
    BuildFinished { success: bool },
}

/// The outcome of decoding one output line: a typed message, or the line
/// kept verbatim where the decode failed (the test path of the tool does
/// not honour the structured mode for all of its output).
#[derive(Clone, Debug)]
pub enum ParsedLine {
    Message(CargoMessage),
    Plain(String),
}

/// The binding of a build-tool invocation to one project.
#[derive(Clone, Debug)]
pub struct CargoRemote {
    pub repository: Project,
}

impl CargoRemote {
    /// A runner bound to the given project.
    pub fn new(repository: Project) -> (r: CargoRemote)
        ensures
            r.repository == repository,
    {
        CargoRemote { repository }
    }
}

impl CompilerMessageSpan {
    /// A copy equal to this span.
    pub fn duplicate(&self) -> (r: CompilerMessageSpan)
        ensures
            r == *self,
    {
        CompilerMessageSpan {
            column_start: self.column_start,
            column_end: self.column_end,
            file_name: self.file_name.clone(),
            line_start: self.line_start,
            line_end: self.line_end,
            is_primary: self.is_primary,
        }
    }
}

/// `l` with one trailing carriage return removed, as the line splitter of
/// std strips it.
pub open spec fn strip_cr(l: Seq<char>) -> Seq<char> {
    if l.len() > 0 && l.last() == '\r' {
        l.drop_last()
    } else {
        l
    }
}

/// The non-empty lines of `s`: pieces between line feeds, each with one
/// trailing carriage return stripped, empty pieces dropped.
pub open spec fn nonempty_lines(s: Seq<char>) -> Seq<Seq<char>>
    decreases s.len(),
    when true
    via nonempty_lines_decreases
{
    if s.len() == 0 {
        Seq::empty()
    } else {
        let nl = find_from(s, '\n', 0);
        let piece = strip_cr(
            if nl == s.len() {
                s
            } else {
                s.take(nl)
            },
        );
        let rest = if nl == s.len() {
            Seq::<Seq<char>>::empty()
        } else {
            nonempty_lines(s.skip(nl + 1))
        };
        (if piece.len() == 0 {
            Seq::<Seq<char>>::empty()
        } else {
            seq![piece]
        }) + rest
    }
}

#[via_fn]
proof fn nonempty_lines_decreases(s: Seq<char>) {
    if s.len() > 0 {
        crate::edits::lemma_find_from(s, '\n', 0);
    }
}

/// The non-empty lines of the raw output, in order.
pub fn split_nonempty_lines(output: &str) -> (r: Vec<String>)
    ensures
        str_views(r@) == nonempty_lines(output@),
{
    let chars = str_to_chars(output);
    let n: usize = chars.len();
    let mut r: Vec<String> = Vec::new();
    let mut pos: usize = 0;
    proof {
        assert(str_views(r@) =~= Seq::<Seq<char>>::empty());
        assert(chars@.skip(0) =~= chars@);
    }
    while pos < n
        invariant
            pos <= n,
            n == chars@.len(),
            chars@ == output@,
            nonempty_lines(output@) == str_views(r@) + nonempty_lines(chars@.skip(pos as int)),
        decreases n - pos,
    {
        let ghost suffix = chars@.skip(pos as int);
        let nl = crate::edits::find_char_from(&chars, '\n', pos);
        proof {
            crate::edits::lemma_find_from(chars@, '\n', pos as int);
            crate::edits::lemma_find_from_shift(chars@, '\n', pos as int);
        }
        let piece_end: usize = nl;
        let mut piece: Vec<char> = Vec::new();
        let mut i: usize = pos;
        while i < piece_end
            invariant
                pos <= i <= piece_end <= chars@.len(),
                piece@ == chars@.subrange(pos as int, i as int),
            decreases piece_end - i,
        {
            piece.push(chars[i]);
            proof {
                assert(chars@.subrange(pos as int, i + 1) =~= chars@.subrange(
                    pos as int,
                    i as int,
                ).push(chars@[i as int]));
            }
            i = i + 1;
        }
        if piece.len() > 0 && piece[piece.len() - 1] == '\r' {
            piece.pop();
        }
        proof {
            let raw = if find_from(suffix, '\n', 0) == suffix.len() {
                suffix
            } else {
                suffix.take(find_from(suffix, '\n', 0))
            };
            assert(chars@.subrange(pos as int, piece_end as int) =~= raw);
            assert(piece@ == strip_cr(raw));
        }
        let ghost old_views = str_views(r@);
        if piece.len() > 0 {
            r.push(chars_to_string(&piece));
            proof {
                assert(str_views(r@) =~= old_views + seq![piece@]);
            }
        }
        if nl == n {
            proof {
                assert(str_views(r@) + nonempty_lines(chars@.skip(n as int)) =~= str_views(r@));
                assert(chars@.skip(n as int).len() == 0);
                if piece@.len() == 0 {
                    assert(old_views + Seq::<Seq<char>>::empty() =~= old_views);
                }
            }
            return r;
        }
        proof {
            assert(suffix.skip(find_from(suffix, '\n', 0) + 1) =~= chars@.skip(nl + 1));
            if piece@.len() == 0 {
                assert(old_views + (Seq::<Seq<char>>::empty() + nonempty_lines(chars@.skip(nl + 1)))
                    =~= old_views + nonempty_lines(chars@.skip(nl + 1)));
            } else {
                assert(old_views + (seq![piece@] + nonempty_lines(chars@.skip(nl + 1))) =~= (
                old_views + seq![piece@]) + nonempty_lines(chars@.skip(nl + 1)));
            }
        }
        pos = nl + 1;
    }
    proof {
        assert(chars@.skip(n as int).len() == 0);
        assert(str_views(r@) + Seq::<Seq<char>>::empty() =~= str_views(r@));
    }
    r
}

/// The typed messages among the parse outcomes, in order.
pub open spec fn messages_of(l: Seq<ParsedLine>) -> Seq<CargoMessage>
    decreases l.len(),
{
    if l.len() == 0 {
        Seq::empty()
    } else {
        messages_of(l.drop_last()) + (match l.last() {
            ParsedLine::Message(m) => seq![m],
            ParsedLine::Plain(_) => Seq::<CargoMessage>::empty(),
        })
    }
}

/// The verbatim lines among the parse outcomes, in order.
pub open spec fn plain_of(l: Seq<ParsedLine>) -> Seq<String>
    decreases l.len(),
{
    if l.len() == 0 {
        Seq::empty()
    } else {
        plain_of(l.drop_last()) + (match l.last() {
            ParsedLine::Message(_) => Seq::<String>::empty(),
            ParsedLine::Plain(s) => seq![s],
        })
    }
}

/// Splits the decode outcomes of an invocation into the typed messages and
/// the verbatim lines, each in arrival order.
pub fn partition_output(lines: Vec<ParsedLine>) -> (r: (Vec<CargoMessage>, Vec<String>))
    ensures
        r.0@ == messages_of(lines@),
        r.1@ == plain_of(lines@),
{
    let ghost all = lines@;
    let n: usize = lines.len();
    let mut msgs: Vec<CargoMessage> = Vec::new();
    let mut plain: Vec<String> = Vec::new();
    let mut rest: Vec<ParsedLine> = lines;
    let mut i: usize = 0;
    proof {
        assert(all.take(0) =~= Seq::<ParsedLine>::empty());
        assert(msgs@ =~= messages_of(all.take(0)));
        assert(plain@ =~= plain_of(all.take(0)));
    }
    while rest.len() > 0
        invariant
            i <= n,
            n == all.len(),
            rest@ == all.skip(i as int),
            msgs@ == messages_of(all.take(i as int)),
            plain@ == plain_of(all.take(i as int)),
        decreases rest@.len(),
    {
        let pl = rest.remove(0);
        proof {
            assert(pl == all[i as int]);
            assert(all.skip(i as int).remove(0) =~= all.skip(i + 1));
            assert(all.take(i + 1).drop_last() =~= all.take(i as int));
            assert(all.take(i + 1).last() == all[i as int]);
        }
        let ghost old_msgs = msgs@;
        let ghost old_plain = plain@;
        match pl {
            ParsedLine::Message(m) => {
                msgs.push(m);
                proof {
                    assert(msgs@ =~= old_msgs + seq![all[i as int]->Message_0]);
                    assert(plain@ =~= old_plain + Seq::<String>::empty());
                }
            },
            ParsedLine::Plain(s) => {
                plain.push(s);
                proof {
                    assert(plain@ =~= old_plain + seq![all[i as int]->Plain_0]);
                    assert(msgs@ =~= old_msgs + Seq::<CargoMessage>::empty());
                }
            },
        }
        i = i + 1;
    }
    proof {
        assert(all.skip(i as int).len() == 0);
        assert(all.take(i as int) =~= all);
    }
    (msgs, plain)
}

/// A diagnostic worth surfacing: an error or a warning that carries at
/// least one source span, so it has an actionable location.
pub open spec fn is_actionable(m: CompilerMessage) -> bool {
    (m.level@ == "error"@ || m.level@ == "warning"@) && m.spans@.len() > 0
}

/// The actionable diagnostics among the typed messages, in order.
pub open spec fn check_filter(msgs: Seq<CargoMessage>) -> Seq<CompilerMessage>
    decreases msgs.len(),
{
    if msgs.len() == 0 {
        Seq::empty()
    } else {
        check_filter(msgs.drop_last()) + (match msgs.last() {
            CargoMessage::CompilerMessage { message } => if is_actionable(message) {
                seq![message]
            } else {
                Seq::<CompilerMessage>::empty()
            },
            _ => Seq::<CompilerMessage>::empty(),
        })
    }
}

/// Whether this message is an actionable diagnostic.
fn actionable(m: &CompilerMessage) -> (r: bool)
    ensures
        r == is_actionable(*m),
{
    let lv = str_to_chars(m.level.as_str());
    (chars_equal(&lv, &str_to_chars("error")) || chars_equal(&lv, &str_to_chars("warning")))
        && m.spans.len() > 0
}

/// The structured diagnostics of a check run: compiler messages whose level
/// is an error or a warning and which carry at least one span; everything
/// else is dropped as having no actionable location.
pub fn check_structured(messages: Vec<CargoMessage>) -> (r: Vec<CompilerMessage>)
    ensures
        r@ == check_filter(messages@),
{
    let ghost all = messages@;
    let n: usize = messages.len();
    let mut rest: Vec<CargoMessage> = messages;
    let mut r: Vec<CompilerMessage> = Vec::new();
    let mut i: usize = 0;
    proof {
        assert(all.take(0) =~= Seq::<CargoMessage>::empty());
        assert(r@ =~= check_filter(all.take(0)));
    }
    while rest.len() > 0
        invariant
            i <= n,
            n == all.len(),
            rest@ == all.skip(i as int),
            r@ == check_filter(all.take(i as int)),
        decreases rest@.len(),
    {
        let m = rest.remove(0);
        proof {
            assert(m == all[i as int]);
            assert(all.skip(i as int).remove(0) =~= all.skip(i + 1));
            assert(all.take(i + 1).drop_last() =~= all.take(i as int));
            assert(all.take(i + 1).last() == all[i as int]);
        }
        let ghost before = r@;
        match m {
            CargoMessage::CompilerMessage { message } => {
                let ghost gm = message;
                proof {
                    assert(all[i as int] == CargoMessage::CompilerMessage { message: gm });
                }
                if actionable(&message) {
                    r.push(message);
                    proof {
                        assert(r@ =~= before + seq![gm]);
                    }
                } else {
                    proof {
                        assert(r@ =~= before + Seq::<CompilerMessage>::empty());
                    }
                }
            },
            _ => {
                proof {
                    assert(r@ =~= before + Seq::<CompilerMessage>::empty());
                }
            },
        }
        i = i + 1;
    }
    proof {
        assert(all.skip(i as int).len() == 0);
        assert(all.take(i as int) =~= all);
    }
    r
}

/// The rendered texts of the actionable diagnostics, in order.
pub open spec fn rendered_of(msgs: Seq<CompilerMessage>) -> Seq<Seq<char>> {
    msgs.map_values(|m: CompilerMessage| m.rendered@)
}

/// The human-readable form of a check run: the rendered text of each
/// actionable diagnostic.
pub fn check_rendered(messages: Vec<CargoMessage>) -> (r: Vec<String>)
    ensures
        str_views(r@) == rendered_of(check_filter(messages@)),
{
    let ghost all = messages@;
    let diags = check_structured(messages);
    let n: usize = diags.len();
    let mut r: Vec<String> = Vec::new();
    let mut i: usize = 0;
    while i < n
        invariant
            i <= n,
            n == diags@.len(),
            diags@ == check_filter(all),
            r@.len() == i,
            forall|j: int| 0 <= j < i ==> str_views(r@)[j] == diags@[j].rendered@,
        decreases n - i,
    {
        let ghost old_r = r@;
        r.push(diags[i].rendered.clone());
        proof {
            assert forall|j: int| 0 <= j < i + 1 implies str_views(r@)[j]
                == diags@[j].rendered@ by {
                assert(str_views(r@)[j] == r@[j]@);
                if j < i {
                    assert(r@[j] == old_r[j]);
                    assert(str_views(old_r)[j] == old_r[j]@);
                }
            }
        }
        i = i + 1;
    }
    proof {
        assert(str_views(r@) =~= rendered_of(check_filter(all)));
    }
    r
}

/// The first span flagged primary, which diagnostic-to-fix correlation must
/// use; a message with no primary span yields no actionable location.
pub fn primary_span(m: &CompilerMessage) -> (r: Option<CompilerMessageSpan>)
    ensures
        match r {
            Some(sp) => exists|i: int|
                {
                    &&& 0 <= i < m.spans@.len()
                    &&& (#[trigger] m.spans@[i]).is_primary
                    &&& sp == m.spans@[i]
                    &&& forall|j: int| 0 <= j < i ==> !m.spans@[j].is_primary
                },
            None => forall|i: int| 0 <= i < m.spans@.len() ==> !(#[trigger] m.spans@[i]).is_primary,
        },
{
    let n: usize = m.spans.len();
    let mut i: usize = 0;
    while i < n
        invariant
            i <= n,
            n == m.spans@.len(),
            forall|j: int| 0 <= j < i ==> !m.spans@[j].is_primary,
        decreases n - i,
    {
        if m.spans[i].is_primary {
            return Some(m.spans[i].duplicate());
        }
        i = i + 1;
    }
    None
}

/// A one-based line/column pair moved to a zero-based protocol position,
/// saturating at zero and at the width of the protocol's position type.
pub open spec fn to_zero_based(x: int) -> int {
    if x >= 1 {
        if x - 1 > u32::MAX {
            u32::MAX as int
        } else {
            x - 1
        }
    } else {
        0
    }
}

/// The protocol range of a compiler span: lines and columns move from
/// one-based to zero-based, saturating at the bounds.
pub fn span_to_range(span: &CompilerMessageSpan) -> (r: Range)
    ensures
        r.start.line == to_zero_based(span.line_start as int),
        r.start.character == to_zero_based(span.column_start as int),
        r.end.line == to_zero_based(span.line_end as int),
        r.end.character == to_zero_based(span.column_end as int),
{
    Range {
        start: Position {
            line: saturate_u32(span.line_start),
            character: saturate_u32(span.column_start),
        },
        end: Position { line: saturate_u32(span.line_end), character: saturate_u32(span.column_end) },
    }
}

/// One-based to zero-based with saturation, in executable form.
fn saturate_u32(x: usize) -> (r: u32)
    ensures
        r == to_zero_based(x as int),
{
    if x >= 1 {
        let d: usize = x - 1;
        if d > u32::MAX as usize {
            u32::MAX
        } else {
            d as u32
        }
    } else {
        0
    }
}

/// The arguments of a check invocation: structured output mode is always
/// requested.
pub fn cargo_check_args() -> (r: Vec<String>)
    ensures
        str_views(r@) == seq!["check"@, "--message-format=json"@],
{
    let mut r: Vec<String> = Vec::new();
    r.push(chars_to_string(&str_to_chars("check")));
    r.push(chars_to_string(&str_to_chars("--message-format=json")));
    proof {
        assert(str_views(r@) =~= seq!["check"@, "--message-format=json"@]);
    }
    r
}

/// The arguments of a test invocation: structured output mode, and, where a
/// single test is named, the pass-through separator, uncaptured output and
/// the test's name.
pub fn cargo_test_args(test_name: Option<&String>) -> (r: Vec<String>)
    ensures
        match test_name {
            Some(name) => str_views(r@) == seq![
                "test"@,
                "--message-format=json"@,
                "--"@,
                "--nocapture"@,
                name@,
            ],
            None => str_views(r@) == seq!["test"@, "--message-format=json"@],
        },
{
    let mut r: Vec<String> = Vec::new();
    r.push(chars_to_string(&str_to_chars("test")));
    r.push(chars_to_string(&str_to_chars("--message-format=json")));
    match test_name {
        Some(name) => {
            r.push(chars_to_string(&str_to_chars("--")));
            r.push(chars_to_string(&str_to_chars("--nocapture")));
            r.push(name.clone());
            proof {
                assert(str_views(r@) =~= seq![
                    "test"@,
                    "--message-format=json"@,
                    "--"@,
                    "--nocapture"@,
                    name@,
                ]);
            }
        },
        None => {
            proof {
                assert(str_views(r@) =~= seq!["test"@, "--message-format=json"@]);
            }
        },
    }
    r
}

/// The value of the backtrace toggle in the tool's environment.
pub fn backtrace_env_value(backtrace: bool) -> (r: String)
    ensures
        backtrace ==> r@ == "full"@,
        !backtrace ==> r@ == "0"@,
{
    if backtrace {
        chars_to_string(&str_to_chars("full"))
    } else {
        chars_to_string(&str_to_chars("0"))
    }
}

} // verus!
